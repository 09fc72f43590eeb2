//! What stands in a line of the network probe's log.
use vstd::prelude::*;
use vstd::string::*;

use crate::netprobe::config::SendMode;
use crate::netprobe::log::{
    expire_reason_name, frame_event_fields, log_line, number_field, plain_field, read_end_name,
    server_event_fields, text_field, udp_client_event_fields, udp_event_fields,
};
use crate::netprobe::tcp_client::FrameEvent;
use crate::netprobe::tcp_server::{ReadEnd, ServerEvent};
use crate::netprobe::udp_client::UdpClientEvent;
use crate::netprobe::udp_server::{OpenKind, UdpEvent};
use crate::text::{decimal, log_escaped};

verus! {

/// A field of a line with a number.
pub open spec fn number_entry(key: Seq<char>, value: nat) -> Seq<char> {
    seq![',', '"'] + key + seq!['"', ':'] + decimal(value)
}

/// A field of a line with a text.
pub open spec fn text_entry(key: Seq<char>, value: Seq<char>) -> Seq<char> {
    seq![',', '"'] + key + seq!['"', ':', '"'] + value + seq!['"']
}

/// Whether a field stands in a text with nothing behind it but another field or
/// the end.
pub open spec fn shows(text: Seq<char>, field: Seq<char>) -> bool {
    exists|at: int| #[trigger] shows_at(text, field, at)
}

/// Whether a field stands in a text from `at` on.
pub open spec fn shows_at(text: Seq<char>, field: Seq<char>, at: int) -> bool {
    let end = at + field.len();
    &&& 0 <= at && end <= text.len()
    &&& text.subrange(at, end) == field
    &&& end == text.len() || text[end] == ',' || text[end] == '}'
}

proof fn lemma_alone(field: Seq<char>)
    ensures
        shows(field, field),
{
    assert(field.subrange(0, field.len() as int) =~= field);
    assert(shows_at(field, field, 0));
}

proof fn lemma_glued(text: Seq<char>, field: Seq<char>)
    requires
        field.len() > 0,
        field[0] == ',',
    ensures
        shows(text + field, field),
        forall|other: Seq<char>| #[trigger] shows(text, other) ==> shows(text + field, other),
{
    let all = text + field;
    let start = text.len() as int;
    assert(all.subrange(start, start + field.len()) =~= field);
    assert(shows_at(all, field, start));
    assert forall|other: Seq<char>| #[trigger] shows(text, other) implies shows(all, other) by {
        let at = choose|at: int| #[trigger] shows_at(text, other, at);
        let end = at + other.len();
        assert(all.subrange(at, end) =~= text.subrange(at, end));
        assert(shows_at(all, other, at));
    }
}

proof fn lemma_number_entry(key: Seq<char>, value: nat)
    ensures
        number_field(key, value) == number_entry(key, value),
        number_field(key, value).len() > 0,
        number_field(key, value)[0] == ',',
{
    reveal_strlit(",\"");
    reveal_strlit("\":");
    assert(",\""@ =~= seq![',', '"']);
    assert("\":"@ =~= seq!['"', ':']);
}

proof fn lemma_text_entry(key: Seq<char>, value: Seq<char>)
    ensures
        plain_field(key, value) == text_entry(key, value),
        plain_field(key, value).len() > 0,
        plain_field(key, value)[0] == ',',
{
    reveal_strlit(",\"");
    reveal_strlit("\":\"");
    reveal_strlit("\"");
    assert(",\""@ =~= seq![',', '"']);
    assert("\":\""@ =~= seq!['"', ':', '"']);
    assert("\""@ =~= seq!['"']);
}

/// A line starts with its time, its side and the name of its event, shows the
/// fields of the event and ends with a brace.
pub proof fn law_line_shows_its_fields(
    ts_ms: nat,
    side: Seq<char>,
    event: Seq<char>,
    fields: Seq<char>,
    field: Seq<char>,
)
    ensures
        ({
            let line = log_line(ts_ms, side, event, fields);
            &&& shows(fields, field) ==> shows(line, field)
            &&& line.len() > 0 && line[0] == '{' && line.last() == '}'
            &&& line.len() > fields.len() && line.subrange(
                line.len() - 1 - fields.len(),
                line.len() - 1,
            ) == fields
        }),
{
    let line = log_line(ts_ms, side, event, fields);
    reveal_strlit("}");
    reveal_strlit("{\"ts_ms\":");
    let front = "{\"ts_ms\":"@ + decimal(ts_ms) + ",\"side\":\""@ + side + "\",\"event\":\""@ + event + "\""@;
    assert("}"@ =~= seq!['}']);
    assert(line =~= front + fields + seq!['}']);
    assert("{\"ts_ms\":"@[0] == '{');
    let start = front.len() as int;
    assert(line.len() - 1 - fields.len() == start);
    assert(line.subrange(start, start + fields.len()) =~= fields);
    if shows(fields, field) {
        let at = choose|at: int| #[trigger] shows_at(fields, field, at);
        let end = at + field.len();
        assert(line.subrange(start + at, start + end) =~= fields.subrange(at, end));
        if end < fields.len() {
            assert(line[start + end] == fields[end]);
        }
        assert(shows_at(line, field, start + at));
    }
}

/// What the TCP server reports of an event stands in its fields, each number under
/// its name.
#[verifier::rlimit(60)]
pub proof fn law_server_events_are_reported(event: ServerEvent, detail: Seq<char>)
    ensures
        ({
            let text = server_event_fields(event, detail);
            match event {
                ServerEvent::Hello(hello) => {
                    &&& shows(text, text_entry("mode"@, SendMode::wire_name(hello.mode)))
                    &&& shows(text, number_entry("chunk_size"@, hello.chunk_size as nat))
                    &&& shows(text, number_entry("frame_size"@, hello.frame_size as nat))
                    &&& shows(text, number_entry("fps"@, hello.fps as nat))
                    &&& shows(text, number_entry("duration_sec"@, hello.duration_sec as nat))
                    &&& shows(text, number_entry("window_bytes"@, hello.window_bytes as nat))
                },
                ServerEvent::BadChunk { frame_id, chunk_index, chunk_count } => {
                    &&& shows(text, number_entry("frame_id"@, frame_id as nat))
                    &&& shows(text, number_entry("chunk_index"@, chunk_index as nat))
                    &&& shows(text, number_entry("chunk_count"@, chunk_count as nat))
                },
                ServerEvent::Chunk { frame_id, chunk_index, chunk_count, payload_len } => {
                    &&& shows(text, number_entry("frame_id"@, frame_id as nat))
                    &&& shows(text, number_entry("chunk_index"@, chunk_index as nat))
                    &&& shows(text, number_entry("chunk_count"@, chunk_count as nat))
                    &&& shows(text, number_entry("payload_len"@, payload_len as nat))
                },
                ServerEvent::FrameRxStart {
                    frame_id,
                    chunk_count,
                    frame_size,
                    first_chunk_index,
                } => {
                    &&& shows(text, number_entry("frame_id"@, frame_id as nat))
                    &&& shows(text, number_entry("chunk_count"@, chunk_count as nat))
                    &&& shows(text, number_entry("frame_size"@, frame_size as nat))
                    &&& shows(text, number_entry("first_chunk_index"@, first_chunk_index as nat))
                },
                ServerEvent::FrameMismatch {
                    frame_id,
                    expected_chunks,
                    got_chunks,
                    expected_size,
                    got_size,
                } => {
                    &&& shows(text, number_entry("frame_id"@, frame_id as nat))
                    &&& shows(text, number_entry("expected_chunks"@, expected_chunks as nat))
                    &&& shows(text, number_entry("got_chunks"@, got_chunks as nat))
                    &&& shows(text, number_entry("expected_size"@, expected_size as nat))
                    &&& shows(text, number_entry("got_size"@, got_size as nat))
                },
                ServerEvent::DuplicateChunk { frame_id, chunk_index } => {
                    &&& shows(text, number_entry("frame_id"@, frame_id as nat))
                    &&& shows(text, number_entry("chunk_index"@, chunk_index as nat))
                },
                ServerEvent::FrameComplete {
                    frame_id,
                    chunks_seen,
                    chunk_count,
                    bytes_seen,
                    sender_first_unix_us,
                    elapsed_us,
                } => {
                    &&& shows(text, number_entry("frame_id"@, frame_id as nat))
                    &&& shows(text, number_entry("chunks_seen"@, chunks_seen as nat))
                    &&& shows(text, number_entry("chunk_count"@, chunk_count as nat))
                    &&& shows(text, number_entry("bytes_seen"@, bytes_seen as nat))
                    &&& shows(text, number_entry("sender_first_unix_us"@, sender_first_unix_us as nat))
                    &&& shows(text, number_entry("elapsed_us"@, elapsed_us as nat))
                },
                ServerEvent::Bye { chunks_total, bytes_total, open_frames } => {
                    &&& shows(text, number_entry("chunks_total"@, chunks_total as nat))
                    &&& shows(text, number_entry("bytes_total"@, bytes_total as nat))
                    &&& shows(text, number_entry("open_frames"@, open_frames as nat))
                },
                ServerEvent::ReadEnded {
                    end: ReadEnd::Eof,
                    chunks_total,
                    bytes_total,
                    open_frames,
                } => {
                    &&& shows(text, number_entry("chunks_total"@, chunks_total as nat))
                    &&& shows(text, number_entry("bytes_total"@, bytes_total as nat))
                    &&& shows(text, number_entry("open_frames"@, open_frames as nat))
                },
                ServerEvent::ReadEnded {
                    end: ReadEnd::ReadError,
                    chunks_total,
                    bytes_total,
                    open_frames,
                } => {
                    &&& shows(text, text_entry("message"@, log_escaped(detail)))
                    &&& shows(text, number_entry("chunks_total"@, chunks_total as nat))
                    &&& shows(text, number_entry("bytes_total"@, bytes_total as nat))
                    &&& shows(text, number_entry("open_frames"@, open_frames as nat))
                },
                ServerEvent::OpenFrame {
                    reason,
                    frame_id,
                    chunks_seen,
                    chunk_count,
                    bytes_seen,
                    frame_size,
                    elapsed_us,
                } => {
                    &&& shows(text, text_entry("reason"@, log_escaped(read_end_name(reason))))
                    &&& shows(text, number_entry("frame_id"@, frame_id as nat))
                    &&& shows(text, number_entry("chunks_seen"@, chunks_seen as nat))
                    &&& shows(text, number_entry("chunk_count"@, chunk_count as nat))
                    &&& shows(text, number_entry("bytes_seen"@, bytes_seen as nat))
                    &&& shows(text, number_entry("frame_size"@, frame_size as nat))
                    &&& shows(text, number_entry("elapsed_us"@, elapsed_us as nat))
                },
                _ => true,
            }
        }),
{
    match event {
        ServerEvent::Hello(hello) => {
            let part1 = plain_field("mode"@, SendMode::wire_name(hello.mode));
            lemma_text_entry("mode"@, SendMode::wire_name(hello.mode));
            lemma_alone(part1);
            let text1 = part1;
            let part2 = number_field("chunk_size"@, hello.chunk_size as nat);
            lemma_number_entry("chunk_size"@, hello.chunk_size as nat);
            lemma_glued(text1, part2);
            let text2 = text1 + part2;
            let part3 = number_field("frame_size"@, hello.frame_size as nat);
            lemma_number_entry("frame_size"@, hello.frame_size as nat);
            lemma_glued(text2, part3);
            let text3 = text2 + part3;
            let part4 = number_field("fps"@, hello.fps as nat);
            lemma_number_entry("fps"@, hello.fps as nat);
            lemma_glued(text3, part4);
            let text4 = text3 + part4;
            let part5 = number_field("duration_sec"@, hello.duration_sec as nat);
            lemma_number_entry("duration_sec"@, hello.duration_sec as nat);
            lemma_glued(text4, part5);
            let text5 = text4 + part5;
            let part6 = number_field("window_bytes"@, hello.window_bytes as nat);
            lemma_number_entry("window_bytes"@, hello.window_bytes as nat);
            lemma_glued(text5, part6);
        },
        ServerEvent::BadChunk { frame_id, chunk_index, chunk_count } => {
            let part1 = number_field("frame_id"@, frame_id as nat);
            lemma_number_entry("frame_id"@, frame_id as nat);
            lemma_alone(part1);
            let text1 = part1;
            let part2 = number_field("chunk_index"@, chunk_index as nat);
            lemma_number_entry("chunk_index"@, chunk_index as nat);
            lemma_glued(text1, part2);
            let text2 = text1 + part2;
            let part3 = number_field("chunk_count"@, chunk_count as nat);
            lemma_number_entry("chunk_count"@, chunk_count as nat);
            lemma_glued(text2, part3);
        },
        ServerEvent::Chunk { frame_id, chunk_index, chunk_count, payload_len } => {
            let part1 = number_field("frame_id"@, frame_id as nat);
            lemma_number_entry("frame_id"@, frame_id as nat);
            lemma_alone(part1);
            let text1 = part1;
            let part2 = number_field("chunk_index"@, chunk_index as nat);
            lemma_number_entry("chunk_index"@, chunk_index as nat);
            lemma_glued(text1, part2);
            let text2 = text1 + part2;
            let part3 = number_field("chunk_count"@, chunk_count as nat);
            lemma_number_entry("chunk_count"@, chunk_count as nat);
            lemma_glued(text2, part3);
            let text3 = text2 + part3;
            let part4 = number_field("payload_len"@, payload_len as nat);
            lemma_number_entry("payload_len"@, payload_len as nat);
            lemma_glued(text3, part4);
        },
        ServerEvent::FrameRxStart { frame_id, chunk_count, frame_size, first_chunk_index } => {
            let part1 = number_field("frame_id"@, frame_id as nat);
            lemma_number_entry("frame_id"@, frame_id as nat);
            lemma_alone(part1);
            let text1 = part1;
            let part2 = number_field("chunk_count"@, chunk_count as nat);
            lemma_number_entry("chunk_count"@, chunk_count as nat);
            lemma_glued(text1, part2);
            let text2 = text1 + part2;
            let part3 = number_field("frame_size"@, frame_size as nat);
            lemma_number_entry("frame_size"@, frame_size as nat);
            lemma_glued(text2, part3);
            let text3 = text2 + part3;
            let part4 = number_field("first_chunk_index"@, first_chunk_index as nat);
            lemma_number_entry("first_chunk_index"@, first_chunk_index as nat);
            lemma_glued(text3, part4);
        },
        ServerEvent::FrameMismatch {
            frame_id,
            expected_chunks,
            got_chunks,
            expected_size,
            got_size,
        } => {
            let part1 = number_field("frame_id"@, frame_id as nat);
            lemma_number_entry("frame_id"@, frame_id as nat);
            lemma_alone(part1);
            let text1 = part1;
            let part2 = number_field("expected_chunks"@, expected_chunks as nat);
            lemma_number_entry("expected_chunks"@, expected_chunks as nat);
            lemma_glued(text1, part2);
            let text2 = text1 + part2;
            let part3 = number_field("got_chunks"@, got_chunks as nat);
            lemma_number_entry("got_chunks"@, got_chunks as nat);
            lemma_glued(text2, part3);
            let text3 = text2 + part3;
            let part4 = number_field("expected_size"@, expected_size as nat);
            lemma_number_entry("expected_size"@, expected_size as nat);
            lemma_glued(text3, part4);
            let text4 = text3 + part4;
            let part5 = number_field("got_size"@, got_size as nat);
            lemma_number_entry("got_size"@, got_size as nat);
            lemma_glued(text4, part5);
        },
        ServerEvent::DuplicateChunk { frame_id, chunk_index } => {
            let part1 = number_field("frame_id"@, frame_id as nat);
            lemma_number_entry("frame_id"@, frame_id as nat);
            lemma_alone(part1);
            let text1 = part1;
            let part2 = number_field("chunk_index"@, chunk_index as nat);
            lemma_number_entry("chunk_index"@, chunk_index as nat);
            lemma_glued(text1, part2);
        },
        ServerEvent::FrameComplete {
            frame_id,
            chunks_seen,
            chunk_count,
            bytes_seen,
            sender_first_unix_us,
            elapsed_us,
        } => {
            let part1 = number_field("frame_id"@, frame_id as nat);
            lemma_number_entry("frame_id"@, frame_id as nat);
            lemma_alone(part1);
            let text1 = part1;
            let part2 = number_field("chunks_seen"@, chunks_seen as nat);
            lemma_number_entry("chunks_seen"@, chunks_seen as nat);
            lemma_glued(text1, part2);
            let text2 = text1 + part2;
            let part3 = number_field("chunk_count"@, chunk_count as nat);
            lemma_number_entry("chunk_count"@, chunk_count as nat);
            lemma_glued(text2, part3);
            let text3 = text2 + part3;
            let part4 = number_field("bytes_seen"@, bytes_seen as nat);
            lemma_number_entry("bytes_seen"@, bytes_seen as nat);
            lemma_glued(text3, part4);
            let text4 = text3 + part4;
            let part5 = number_field("sender_first_unix_us"@, sender_first_unix_us as nat);
            lemma_number_entry("sender_first_unix_us"@, sender_first_unix_us as nat);
            lemma_glued(text4, part5);
            let text5 = text4 + part5;
            let part6 = number_field("elapsed_us"@, elapsed_us as nat);
            lemma_number_entry("elapsed_us"@, elapsed_us as nat);
            lemma_glued(text5, part6);
        },
        ServerEvent::Bye { chunks_total, bytes_total, open_frames } => {
            let part1 = number_field("chunks_total"@, chunks_total as nat);
            lemma_number_entry("chunks_total"@, chunks_total as nat);
            lemma_alone(part1);
            let text1 = part1;
            let part2 = number_field("bytes_total"@, bytes_total as nat);
            lemma_number_entry("bytes_total"@, bytes_total as nat);
            lemma_glued(text1, part2);
            let text2 = text1 + part2;
            let part3 = number_field("open_frames"@, open_frames as nat);
            lemma_number_entry("open_frames"@, open_frames as nat);
            lemma_glued(text2, part3);
        },
        ServerEvent::ReadEnded { end: ReadEnd::Eof, chunks_total, bytes_total, open_frames } => {
            let part1 = number_field("chunks_total"@, chunks_total as nat);
            lemma_number_entry("chunks_total"@, chunks_total as nat);
            lemma_alone(part1);
            let text1 = part1;
            let part2 = number_field("bytes_total"@, bytes_total as nat);
            lemma_number_entry("bytes_total"@, bytes_total as nat);
            lemma_glued(text1, part2);
            let text2 = text1 + part2;
            let part3 = number_field("open_frames"@, open_frames as nat);
            lemma_number_entry("open_frames"@, open_frames as nat);
            lemma_glued(text2, part3);
        },
        ServerEvent::ReadEnded {
            end: ReadEnd::ReadError,
            chunks_total,
            bytes_total,
            open_frames,
        } => {
            let part1 = text_field("message"@, detail);
            lemma_text_entry("message"@, log_escaped(detail));
            lemma_alone(part1);
            let text1 = part1;
            let part2 = number_field("chunks_total"@, chunks_total as nat);
            lemma_number_entry("chunks_total"@, chunks_total as nat);
            lemma_glued(text1, part2);
            let text2 = text1 + part2;
            let part3 = number_field("bytes_total"@, bytes_total as nat);
            lemma_number_entry("bytes_total"@, bytes_total as nat);
            lemma_glued(text2, part3);
            let text3 = text2 + part3;
            let part4 = number_field("open_frames"@, open_frames as nat);
            lemma_number_entry("open_frames"@, open_frames as nat);
            lemma_glued(text3, part4);
        },
        ServerEvent::OpenFrame {
            reason,
            frame_id,
            chunks_seen,
            chunk_count,
            bytes_seen,
            frame_size,
            elapsed_us,
        } => {
            let part1 = text_field("reason"@, read_end_name(reason));
            lemma_text_entry("reason"@, log_escaped(read_end_name(reason)));
            lemma_alone(part1);
            let text1 = part1;
            let part2 = number_field("frame_id"@, frame_id as nat);
            lemma_number_entry("frame_id"@, frame_id as nat);
            lemma_glued(text1, part2);
            let text2 = text1 + part2;
            let part3 = number_field("chunks_seen"@, chunks_seen as nat);
            lemma_number_entry("chunks_seen"@, chunks_seen as nat);
            lemma_glued(text2, part3);
            let text3 = text2 + part3;
            let part4 = number_field("chunk_count"@, chunk_count as nat);
            lemma_number_entry("chunk_count"@, chunk_count as nat);
            lemma_glued(text3, part4);
            let text4 = text3 + part4;
            let part5 = number_field("bytes_seen"@, bytes_seen as nat);
            lemma_number_entry("bytes_seen"@, bytes_seen as nat);
            lemma_glued(text4, part5);
            let text5 = text4 + part5;
            let part6 = number_field("frame_size"@, frame_size as nat);
            lemma_number_entry("frame_size"@, frame_size as nat);
            lemma_glued(text5, part6);
            let text6 = text5 + part6;
            let part7 = number_field("elapsed_us"@, elapsed_us as nat);
            lemma_number_entry("elapsed_us"@, elapsed_us as nat);
            lemma_glued(text6, part7);
        },
        _ => {},
    }
}

/// What the UDP server reports of an event stands in its fields, each number under
/// its name.
#[verifier::rlimit(60)]
pub proof fn law_udp_events_are_reported(event: UdpEvent, address: Seq<char>)
    ensures
        ({
            let text = udp_event_fields(event, address);
            match event {
                UdpEvent::Peer { .. } => {
                    &&& shows(text, text_entry("addr"@, log_escaped(address)))
                },
                UdpEvent::SimulatedDrop { packet_index, bytes } => {
                    &&& shows(text, number_entry("packet_index"@, packet_index as nat))
                    &&& shows(text, number_entry("bytes"@, bytes as nat))
                },
                UdpEvent::BadPacket { bytes, error, .. } => {
                    &&& shows(text, text_entry("peer"@, log_escaped(address)))
                    &&& shows(text, number_entry("bytes"@, bytes as nat))
                    &&& shows(text, text_entry("message"@, log_escaped(error.words())))
                },
                UdpEvent::PeerUpdate { session_id, .. } => {
                    &&& shows(text, text_entry("addr"@, log_escaped(address)))
                    &&& shows(text, number_entry("session_id"@, session_id as nat))
                },
                UdpEvent::Session { session_id, .. } => {
                    &&& shows(text, text_entry("addr"@, log_escaped(address)))
                    &&& shows(text, number_entry("session_id"@, session_id as nat))
                },
                UdpEvent::InitialFrameVideoDrop { frame_id, chunk_index, chunk_count } => {
                    &&& shows(text, number_entry("frame_id"@, frame_id as nat))
                    &&& shows(text, number_entry("chunk_index"@, chunk_index as nat))
                    &&& shows(text, number_entry("chunk_count"@, chunk_count as nat))
                },
                UdpEvent::BadChunk { frame_id, chunk_index, chunk_count } => {
                    &&& shows(text, number_entry("frame_id"@, frame_id as nat))
                    &&& shows(text, number_entry("chunk_index"@, chunk_index as nat))
                    &&& shows(text, number_entry("chunk_count"@, chunk_count as nat))
                },
                UdpEvent::FrameOpened {
                    kind: OpenKind::Announced,
                    frame_id,
                    chunk_count,
                    frame_size,
                } => {
                    &&& shows(text, number_entry("frame_id"@, frame_id as nat))
                    &&& shows(text, number_entry("chunk_count"@, chunk_count as nat))
                    &&& shows(text, number_entry("frame_size"@, frame_size as nat))
                },
                UdpEvent::FrameOpened {
                    kind: OpenKind::Gap,
                    frame_id,
                    chunk_count,
                    frame_size,
                } => {
                    &&& shows(text, number_entry("frame_id"@, frame_id as nat))
                    &&& shows(text, number_entry("chunk_count"@, chunk_count as nat))
                    &&& shows(text, number_entry("frame_size"@, frame_size as nat))
                },
                UdpEvent::FrameOpened {
                    kind: OpenKind::Chunk(first),
                    frame_id,
                    chunk_count,
                    frame_size,
                } => {
                    &&& shows(text, number_entry("frame_id"@, frame_id as nat))
                    &&& shows(text, number_entry("chunk_count"@, chunk_count as nat))
                    &&& shows(text, number_entry("frame_size"@, frame_size as nat))
                    &&& shows(text, number_entry("first_chunk_index"@, first as nat))
                },
                UdpEvent::FrameGapCapped { gap_start, gap_end, opened, cap } => {
                    &&& shows(text, number_entry("gap_start"@, gap_start as nat))
                    &&& shows(text, number_entry("gap_end"@, gap_end as nat))
                    &&& shows(text, number_entry("opened"@, opened as nat))
                    &&& shows(text, number_entry("cap"@, cap as nat))
                },
                UdpEvent::LateCompleteChunk { frame_id, chunk_index } => {
                    &&& shows(text, number_entry("frame_id"@, frame_id as nat))
                    &&& shows(text, number_entry("chunk_index"@, chunk_index as nat))
                },
                UdpEvent::Chunk { frame_id, chunk_index, chunk_count, payload_len } => {
                    &&& shows(text, number_entry("frame_id"@, frame_id as nat))
                    &&& shows(text, number_entry("chunk_index"@, chunk_index as nat))
                    &&& shows(text, number_entry("chunk_count"@, chunk_count as nat))
                    &&& shows(text, number_entry("payload_len"@, payload_len as nat))
                },
                UdpEvent::FrameMismatch {
                    frame_id,
                    expected_chunks,
                    got_chunks,
                    expected_size,
                    got_size,
                } => {
                    &&& shows(text, number_entry("frame_id"@, frame_id as nat))
                    &&& shows(text, number_entry("expected_chunks"@, expected_chunks as nat))
                    &&& shows(text, number_entry("got_chunks"@, got_chunks as nat))
                    &&& shows(text, number_entry("expected_size"@, expected_size as nat))
                    &&& shows(text, number_entry("got_size"@, got_size as nat))
                },
                UdpEvent::DuplicateChunk { frame_id, chunk_index } => {
                    &&& shows(text, number_entry("frame_id"@, frame_id as nat))
                    &&& shows(text, number_entry("chunk_index"@, chunk_index as nat))
                },
                UdpEvent::FrameComplete {
                    frame_id,
                    chunks_seen,
                    chunk_count,
                    bytes_seen,
                    sender_first_unix_us,
                    elapsed_us,
                } => {
                    &&& shows(text, number_entry("frame_id"@, frame_id as nat))
                    &&& shows(text, number_entry("chunks_seen"@, chunks_seen as nat))
                    &&& shows(text, number_entry("chunk_count"@, chunk_count as nat))
                    &&& shows(text, number_entry("bytes_seen"@, bytes_seen as nat))
                    &&& shows(text, number_entry("sender_first_unix_us"@, sender_first_unix_us as nat))
                    &&& shows(text, number_entry("elapsed_us"@, elapsed_us as nat))
                },
                UdpEvent::FrameExpired {
                    reason,
                    frame_id,
                    chunks_seen,
                    chunk_count,
                    missing_chunks,
                    bytes_seen,
                    frame_size,
                    elapsed_us,
                } => {
                    &&& shows(text, text_entry("reason"@, log_escaped(expire_reason_name(reason))))
                    &&& shows(text, number_entry("frame_id"@, frame_id as nat))
                    &&& shows(text, number_entry("chunks_seen"@, chunks_seen as nat))
                    &&& shows(text, number_entry("chunk_count"@, chunk_count as nat))
                    &&& shows(text, number_entry("missing_chunks"@, missing_chunks as nat))
                    &&& shows(text, number_entry("bytes_seen"@, bytes_seen as nat))
                    &&& shows(text, number_entry("frame_size"@, frame_size as nat))
                    &&& shows(text, number_entry("elapsed_us"@, elapsed_us as nat))
                },
                UdpEvent::NackSent { frame_id, missing_chunks, round } => {
                    &&& shows(text, number_entry("frame_id"@, frame_id as nat))
                    &&& shows(text, number_entry("missing_chunks"@, missing_chunks as nat))
                    &&& shows(text, number_entry("round"@, round as nat))
                },
            }
        }),
{
    match event {
        UdpEvent::Peer { .. } => {
            let part1 = text_field("addr"@, address);
            lemma_text_entry("addr"@, log_escaped(address));
            lemma_alone(part1);
        },
        UdpEvent::SimulatedDrop { packet_index, bytes } => {
            let part1 = number_field("packet_index"@, packet_index as nat);
            lemma_number_entry("packet_index"@, packet_index as nat);
            lemma_alone(part1);
            let text1 = part1;
            let part2 = number_field("bytes"@, bytes as nat);
            lemma_number_entry("bytes"@, bytes as nat);
            lemma_glued(text1, part2);
        },
        UdpEvent::BadPacket { bytes, error, .. } => {
            let part1 = text_field("peer"@, address);
            lemma_text_entry("peer"@, log_escaped(address));
            lemma_alone(part1);
            let text1 = part1;
            let part2 = number_field("bytes"@, bytes as nat);
            lemma_number_entry("bytes"@, bytes as nat);
            lemma_glued(text1, part2);
            let text2 = text1 + part2;
            let part3 = text_field("message"@, error.words());
            lemma_text_entry("message"@, log_escaped(error.words()));
            lemma_glued(text2, part3);
        },
        UdpEvent::PeerUpdate { session_id, .. } => {
            let part1 = text_field("addr"@, address);
            lemma_text_entry("addr"@, log_escaped(address));
            lemma_alone(part1);
            let text1 = part1;
            let part2 = number_field("session_id"@, session_id as nat);
            lemma_number_entry("session_id"@, session_id as nat);
            lemma_glued(text1, part2);
        },
        UdpEvent::Session { session_id, .. } => {
            let part1 = text_field("addr"@, address);
            lemma_text_entry("addr"@, log_escaped(address));
            lemma_alone(part1);
            let text1 = part1;
            let part2 = number_field("session_id"@, session_id as nat);
            lemma_number_entry("session_id"@, session_id as nat);
            lemma_glued(text1, part2);
        },
        UdpEvent::InitialFrameVideoDrop { frame_id, chunk_index, chunk_count } => {
            let part1 = number_field("frame_id"@, frame_id as nat);
            lemma_number_entry("frame_id"@, frame_id as nat);
            lemma_alone(part1);
            let text1 = part1;
            let part2 = number_field("chunk_index"@, chunk_index as nat);
            lemma_number_entry("chunk_index"@, chunk_index as nat);
            lemma_glued(text1, part2);
            let text2 = text1 + part2;
            let part3 = number_field("chunk_count"@, chunk_count as nat);
            lemma_number_entry("chunk_count"@, chunk_count as nat);
            lemma_glued(text2, part3);
        },
        UdpEvent::BadChunk { frame_id, chunk_index, chunk_count } => {
            let part1 = number_field("frame_id"@, frame_id as nat);
            lemma_number_entry("frame_id"@, frame_id as nat);
            lemma_alone(part1);
            let text1 = part1;
            let part2 = number_field("chunk_index"@, chunk_index as nat);
            lemma_number_entry("chunk_index"@, chunk_index as nat);
            lemma_glued(text1, part2);
            let text2 = text1 + part2;
            let part3 = number_field("chunk_count"@, chunk_count as nat);
            lemma_number_entry("chunk_count"@, chunk_count as nat);
            lemma_glued(text2, part3);
        },
        UdpEvent::FrameOpened { kind: OpenKind::Announced, frame_id, chunk_count, frame_size } => {
            let part1 = number_field("frame_id"@, frame_id as nat);
            lemma_number_entry("frame_id"@, frame_id as nat);
            lemma_alone(part1);
            let text1 = part1;
            let part2 = number_field("chunk_count"@, chunk_count as nat);
            lemma_number_entry("chunk_count"@, chunk_count as nat);
            lemma_glued(text1, part2);
            let text2 = text1 + part2;
            let part3 = number_field("frame_size"@, frame_size as nat);
            lemma_number_entry("frame_size"@, frame_size as nat);
            lemma_glued(text2, part3);
        },
        UdpEvent::FrameOpened { kind: OpenKind::Gap, frame_id, chunk_count, frame_size } => {
            let part1 = number_field("frame_id"@, frame_id as nat);
            lemma_number_entry("frame_id"@, frame_id as nat);
            lemma_alone(part1);
            let text1 = part1;
            let part2 = number_field("chunk_count"@, chunk_count as nat);
            lemma_number_entry("chunk_count"@, chunk_count as nat);
            lemma_glued(text1, part2);
            let text2 = text1 + part2;
            let part3 = number_field("frame_size"@, frame_size as nat);
            lemma_number_entry("frame_size"@, frame_size as nat);
            lemma_glued(text2, part3);
        },
        UdpEvent::FrameOpened {
            kind: OpenKind::Chunk(first),
            frame_id,
            chunk_count,
            frame_size,
        } => {
            let part1 = number_field("frame_id"@, frame_id as nat);
            lemma_number_entry("frame_id"@, frame_id as nat);
            lemma_alone(part1);
            let text1 = part1;
            let part2 = number_field("chunk_count"@, chunk_count as nat);
            lemma_number_entry("chunk_count"@, chunk_count as nat);
            lemma_glued(text1, part2);
            let text2 = text1 + part2;
            let part3 = number_field("frame_size"@, frame_size as nat);
            lemma_number_entry("frame_size"@, frame_size as nat);
            lemma_glued(text2, part3);
            let text3 = text2 + part3;
            let part4 = number_field("first_chunk_index"@, first as nat);
            lemma_number_entry("first_chunk_index"@, first as nat);
            lemma_glued(text3, part4);
        },
        UdpEvent::FrameGapCapped { gap_start, gap_end, opened, cap } => {
            let part1 = number_field("gap_start"@, gap_start as nat);
            lemma_number_entry("gap_start"@, gap_start as nat);
            lemma_alone(part1);
            let text1 = part1;
            let part2 = number_field("gap_end"@, gap_end as nat);
            lemma_number_entry("gap_end"@, gap_end as nat);
            lemma_glued(text1, part2);
            let text2 = text1 + part2;
            let part3 = number_field("opened"@, opened as nat);
            lemma_number_entry("opened"@, opened as nat);
            lemma_glued(text2, part3);
            let text3 = text2 + part3;
            let part4 = number_field("cap"@, cap as nat);
            lemma_number_entry("cap"@, cap as nat);
            lemma_glued(text3, part4);
        },
        UdpEvent::LateCompleteChunk { frame_id, chunk_index } => {
            let part1 = number_field("frame_id"@, frame_id as nat);
            lemma_number_entry("frame_id"@, frame_id as nat);
            lemma_alone(part1);
            let text1 = part1;
            let part2 = number_field("chunk_index"@, chunk_index as nat);
            lemma_number_entry("chunk_index"@, chunk_index as nat);
            lemma_glued(text1, part2);
        },
        UdpEvent::Chunk { frame_id, chunk_index, chunk_count, payload_len } => {
            let part1 = number_field("frame_id"@, frame_id as nat);
            lemma_number_entry("frame_id"@, frame_id as nat);
            lemma_alone(part1);
            let text1 = part1;
            let part2 = number_field("chunk_index"@, chunk_index as nat);
            lemma_number_entry("chunk_index"@, chunk_index as nat);
            lemma_glued(text1, part2);
            let text2 = text1 + part2;
            let part3 = number_field("chunk_count"@, chunk_count as nat);
            lemma_number_entry("chunk_count"@, chunk_count as nat);
            lemma_glued(text2, part3);
            let text3 = text2 + part3;
            let part4 = number_field("payload_len"@, payload_len as nat);
            lemma_number_entry("payload_len"@, payload_len as nat);
            lemma_glued(text3, part4);
        },
        UdpEvent::FrameMismatch {
            frame_id,
            expected_chunks,
            got_chunks,
            expected_size,
            got_size,
        } => {
            let part1 = number_field("frame_id"@, frame_id as nat);
            lemma_number_entry("frame_id"@, frame_id as nat);
            lemma_alone(part1);
            let text1 = part1;
            let part2 = number_field("expected_chunks"@, expected_chunks as nat);
            lemma_number_entry("expected_chunks"@, expected_chunks as nat);
            lemma_glued(text1, part2);
            let text2 = text1 + part2;
            let part3 = number_field("got_chunks"@, got_chunks as nat);
            lemma_number_entry("got_chunks"@, got_chunks as nat);
            lemma_glued(text2, part3);
            let text3 = text2 + part3;
            let part4 = number_field("expected_size"@, expected_size as nat);
            lemma_number_entry("expected_size"@, expected_size as nat);
            lemma_glued(text3, part4);
            let text4 = text3 + part4;
            let part5 = number_field("got_size"@, got_size as nat);
            lemma_number_entry("got_size"@, got_size as nat);
            lemma_glued(text4, part5);
        },
        UdpEvent::DuplicateChunk { frame_id, chunk_index } => {
            let part1 = number_field("frame_id"@, frame_id as nat);
            lemma_number_entry("frame_id"@, frame_id as nat);
            lemma_alone(part1);
            let text1 = part1;
            let part2 = number_field("chunk_index"@, chunk_index as nat);
            lemma_number_entry("chunk_index"@, chunk_index as nat);
            lemma_glued(text1, part2);
        },
        UdpEvent::FrameComplete {
            frame_id,
            chunks_seen,
            chunk_count,
            bytes_seen,
            sender_first_unix_us,
            elapsed_us,
        } => {
            let part1 = number_field("frame_id"@, frame_id as nat);
            lemma_number_entry("frame_id"@, frame_id as nat);
            lemma_alone(part1);
            let text1 = part1;
            let part2 = number_field("chunks_seen"@, chunks_seen as nat);
            lemma_number_entry("chunks_seen"@, chunks_seen as nat);
            lemma_glued(text1, part2);
            let text2 = text1 + part2;
            let part3 = number_field("chunk_count"@, chunk_count as nat);
            lemma_number_entry("chunk_count"@, chunk_count as nat);
            lemma_glued(text2, part3);
            let text3 = text2 + part3;
            let part4 = number_field("bytes_seen"@, bytes_seen as nat);
            lemma_number_entry("bytes_seen"@, bytes_seen as nat);
            lemma_glued(text3, part4);
            let text4 = text3 + part4;
            let part5 = number_field("sender_first_unix_us"@, sender_first_unix_us as nat);
            lemma_number_entry("sender_first_unix_us"@, sender_first_unix_us as nat);
            lemma_glued(text4, part5);
            let text5 = text4 + part5;
            let part6 = number_field("elapsed_us"@, elapsed_us as nat);
            lemma_number_entry("elapsed_us"@, elapsed_us as nat);
            lemma_glued(text5, part6);
        },
        UdpEvent::FrameExpired {
            reason,
            frame_id,
            chunks_seen,
            chunk_count,
            missing_chunks,
            bytes_seen,
            frame_size,
            elapsed_us,
        } => {
            let part1 = text_field("reason"@, expire_reason_name(reason));
            lemma_text_entry("reason"@, log_escaped(expire_reason_name(reason)));
            lemma_alone(part1);
            let text1 = part1;
            let part2 = number_field("frame_id"@, frame_id as nat);
            lemma_number_entry("frame_id"@, frame_id as nat);
            lemma_glued(text1, part2);
            let text2 = text1 + part2;
            let part3 = number_field("chunks_seen"@, chunks_seen as nat);
            lemma_number_entry("chunks_seen"@, chunks_seen as nat);
            lemma_glued(text2, part3);
            let text3 = text2 + part3;
            let part4 = number_field("chunk_count"@, chunk_count as nat);
            lemma_number_entry("chunk_count"@, chunk_count as nat);
            lemma_glued(text3, part4);
            let text4 = text3 + part4;
            let part5 = number_field("missing_chunks"@, missing_chunks as nat);
            lemma_number_entry("missing_chunks"@, missing_chunks as nat);
            lemma_glued(text4, part5);
            let text5 = text4 + part5;
            let part6 = number_field("bytes_seen"@, bytes_seen as nat);
            lemma_number_entry("bytes_seen"@, bytes_seen as nat);
            lemma_glued(text5, part6);
            let text6 = text5 + part6;
            let part7 = number_field("frame_size"@, frame_size as nat);
            lemma_number_entry("frame_size"@, frame_size as nat);
            lemma_glued(text6, part7);
            let text7 = text6 + part7;
            let part8 = number_field("elapsed_us"@, elapsed_us as nat);
            lemma_number_entry("elapsed_us"@, elapsed_us as nat);
            lemma_glued(text7, part8);
        },
        UdpEvent::NackSent { frame_id, missing_chunks, round } => {
            let part1 = number_field("frame_id"@, frame_id as nat);
            lemma_number_entry("frame_id"@, frame_id as nat);
            lemma_alone(part1);
            let text1 = part1;
            let part2 = number_field("missing_chunks"@, missing_chunks as nat);
            lemma_number_entry("missing_chunks"@, missing_chunks as nat);
            lemma_glued(text1, part2);
            let text2 = text1 + part2;
            let part3 = number_field("round"@, round as nat);
            lemma_number_entry("round"@, round as nat);
            lemma_glued(text2, part3);
        },
    }
}

/// What a sender reports of its frames stands in the fields, each number under its
/// name.
#[verifier::rlimit(60)]
pub proof fn law_frame_events_are_reported(event: FrameEvent)
    ensures
        ({
            let text = frame_event_fields(event);
            match event {
                FrameEvent::Start { frame_id, chunk_count, frame_size } => {
                    &&& shows(text, number_entry("frame_id"@, frame_id as nat))
                    &&& shows(text, number_entry("chunk_count"@, chunk_count as nat))
                    &&& shows(text, number_entry("frame_size"@, frame_size as nat))
                },
                FrameEvent::ChunkSent { frame_id, chunk_index, chunk_count, payload_len } => {
                    &&& shows(text, number_entry("frame_id"@, frame_id as nat))
                    &&& shows(text, number_entry("chunk_index"@, chunk_index as nat))
                    &&& shows(text, number_entry("chunk_count"@, chunk_count as nat))
                    &&& shows(text, number_entry("payload_len"@, payload_len as nat))
                },
                FrameEvent::Sent { frame_id, chunks_sent, bytes_sent, elapsed_us } => {
                    &&& shows(text, number_entry("frame_id"@, frame_id as nat))
                    &&& shows(text, number_entry("chunks_sent"@, chunks_sent as nat))
                    &&& shows(text, number_entry("bytes_sent"@, bytes_sent as nat))
                    &&& shows(text, number_entry("elapsed_us"@, elapsed_us as nat))
                },
                FrameEvent::Skipped { frame_id, frame_size, window_bytes, window_wait_ms } => {
                    &&& shows(text, number_entry("frame_id"@, frame_id as nat))
                    &&& shows(text, number_entry("frame_size"@, frame_size as nat))
                    &&& shows(text, number_entry("window_bytes"@, window_bytes as nat))
                    &&& shows(text, number_entry("window_wait_ms"@, window_wait_ms as nat))
                },
                FrameEvent::Late { frame_id, elapsed_ms } => {
                    &&& shows(text, number_entry("frame_id"@, frame_id as nat))
                    &&& shows(text, number_entry("elapsed_ms"@, elapsed_ms as nat))
                },
            }
        }),
{
    match event {
        FrameEvent::Start { frame_id, chunk_count, frame_size } => {
            let part1 = number_field("frame_id"@, frame_id as nat);
            lemma_number_entry("frame_id"@, frame_id as nat);
            lemma_alone(part1);
            let text1 = part1;
            let part2 = number_field("chunk_count"@, chunk_count as nat);
            lemma_number_entry("chunk_count"@, chunk_count as nat);
            lemma_glued(text1, part2);
            let text2 = text1 + part2;
            let part3 = number_field("frame_size"@, frame_size as nat);
            lemma_number_entry("frame_size"@, frame_size as nat);
            lemma_glued(text2, part3);
        },
        FrameEvent::ChunkSent { frame_id, chunk_index, chunk_count, payload_len } => {
            let part1 = number_field("frame_id"@, frame_id as nat);
            lemma_number_entry("frame_id"@, frame_id as nat);
            lemma_alone(part1);
            let text1 = part1;
            let part2 = number_field("chunk_index"@, chunk_index as nat);
            lemma_number_entry("chunk_index"@, chunk_index as nat);
            lemma_glued(text1, part2);
            let text2 = text1 + part2;
            let part3 = number_field("chunk_count"@, chunk_count as nat);
            lemma_number_entry("chunk_count"@, chunk_count as nat);
            lemma_glued(text2, part3);
            let text3 = text2 + part3;
            let part4 = number_field("payload_len"@, payload_len as nat);
            lemma_number_entry("payload_len"@, payload_len as nat);
            lemma_glued(text3, part4);
        },
        FrameEvent::Sent { frame_id, chunks_sent, bytes_sent, elapsed_us } => {
            let part1 = number_field("frame_id"@, frame_id as nat);
            lemma_number_entry("frame_id"@, frame_id as nat);
            lemma_alone(part1);
            let text1 = part1;
            let part2 = number_field("chunks_sent"@, chunks_sent as nat);
            lemma_number_entry("chunks_sent"@, chunks_sent as nat);
            lemma_glued(text1, part2);
            let text2 = text1 + part2;
            let part3 = number_field("bytes_sent"@, bytes_sent as nat);
            lemma_number_entry("bytes_sent"@, bytes_sent as nat);
            lemma_glued(text2, part3);
            let text3 = text2 + part3;
            let part4 = number_field("elapsed_us"@, elapsed_us as nat);
            lemma_number_entry("elapsed_us"@, elapsed_us as nat);
            lemma_glued(text3, part4);
        },
        FrameEvent::Skipped { frame_id, frame_size, window_bytes, window_wait_ms } => {
            let part1 = number_field("frame_id"@, frame_id as nat);
            lemma_number_entry("frame_id"@, frame_id as nat);
            lemma_alone(part1);
            let text1 = part1;
            let part2 = number_field("frame_size"@, frame_size as nat);
            lemma_number_entry("frame_size"@, frame_size as nat);
            lemma_glued(text1, part2);
            let text2 = text1 + part2;
            let part3 = number_field("window_bytes"@, window_bytes as nat);
            lemma_number_entry("window_bytes"@, window_bytes as nat);
            lemma_glued(text2, part3);
            let text3 = text2 + part3;
            let part4 = number_field("window_wait_ms"@, window_wait_ms as nat);
            lemma_number_entry("window_wait_ms"@, window_wait_ms as nat);
            lemma_glued(text3, part4);
        },
        FrameEvent::Late { frame_id, elapsed_ms } => {
            let part1 = number_field("frame_id"@, frame_id as nat);
            lemma_number_entry("frame_id"@, frame_id as nat);
            lemma_alone(part1);
            let text1 = part1;
            let part2 = number_field("elapsed_ms"@, elapsed_ms as nat);
            lemma_number_entry("elapsed_ms"@, elapsed_ms as nat);
            lemma_glued(text1, part2);
        },
    }
}

/// What the UDP client reports of control packets stands in the fields, each
/// number under its name.
#[verifier::rlimit(60)]
pub proof fn law_udp_client_events_are_reported(event: UdpClientEvent)
    ensures
        ({
            let text = udp_client_event_fields(event);
            match event {
                UdpClientEvent::BadControlPacket { bytes, error } => {
                    &&& shows(text, number_entry("bytes"@, bytes as nat))
                    &&& shows(text, text_entry("message"@, log_escaped(error.words())))
                },
                UdpClientEvent::StreamStatus(status) => {
                    &&& shows(text, number_entry("last_observed_frame_id"@, status.last_observed_frame_id as nat))
                    &&& shows(text, number_entry("frames_complete"@, status.frames_complete as nat))
                    &&& shows(text, number_entry("frames_skipped"@, status.frames_skipped as nat))
                    &&& shows(text, number_entry("open_frames"@, status.open_frames as nat))
                    &&& shows(text, number_entry("chunks_total"@, status.chunks_total as nat))
                    &&& shows(text, number_entry("announce_packets_total"@, status.announce_packets_total as nat))
                },
                UdpClientEvent::StaleNack { frame_id, session_id } => {
                    &&& shows(text, number_entry("frame_id"@, frame_id as nat))
                    &&& shows(text, number_entry("session_id"@, session_id as nat))
                },
                UdpClientEvent::NackCacheMiss { frame_id, requested_chunks } => {
                    &&& shows(text, number_entry("frame_id"@, frame_id as nat))
                    &&& shows(text, number_entry("requested_chunks"@, requested_chunks as nat))
                },
                UdpClientEvent::NackHandled { frame_id, requested_chunks } => {
                    &&& shows(text, number_entry("frame_id"@, frame_id as nat))
                    &&& shows(text, number_entry("requested_chunks"@, requested_chunks as nat))
                },
                _ => true,
            }
        }),
{
    match event {
        UdpClientEvent::BadControlPacket { bytes, error } => {
            let part1 = number_field("bytes"@, bytes as nat);
            lemma_number_entry("bytes"@, bytes as nat);
            lemma_alone(part1);
            let text1 = part1;
            let part2 = text_field("message"@, error.words());
            lemma_text_entry("message"@, log_escaped(error.words()));
            lemma_glued(text1, part2);
        },
        UdpClientEvent::StreamStatus(status) => {
            let part1 = number_field("last_observed_frame_id"@, status.last_observed_frame_id as nat);
            lemma_number_entry("last_observed_frame_id"@, status.last_observed_frame_id as nat);
            lemma_alone(part1);
            let text1 = part1;
            let part2 = number_field("frames_complete"@, status.frames_complete as nat);
            lemma_number_entry("frames_complete"@, status.frames_complete as nat);
            lemma_glued(text1, part2);
            let text2 = text1 + part2;
            let part3 = number_field("frames_skipped"@, status.frames_skipped as nat);
            lemma_number_entry("frames_skipped"@, status.frames_skipped as nat);
            lemma_glued(text2, part3);
            let text3 = text2 + part3;
            let part4 = number_field("open_frames"@, status.open_frames as nat);
            lemma_number_entry("open_frames"@, status.open_frames as nat);
            lemma_glued(text3, part4);
            let text4 = text3 + part4;
            let part5 = number_field("chunks_total"@, status.chunks_total as nat);
            lemma_number_entry("chunks_total"@, status.chunks_total as nat);
            lemma_glued(text4, part5);
            let text5 = text4 + part5;
            let part6 = number_field("announce_packets_total"@, status.announce_packets_total as nat);
            lemma_number_entry("announce_packets_total"@, status.announce_packets_total as nat);
            lemma_glued(text5, part6);
        },
        UdpClientEvent::StaleNack { frame_id, session_id } => {
            let part1 = number_field("frame_id"@, frame_id as nat);
            lemma_number_entry("frame_id"@, frame_id as nat);
            lemma_alone(part1);
            let text1 = part1;
            let part2 = number_field("session_id"@, session_id as nat);
            lemma_number_entry("session_id"@, session_id as nat);
            lemma_glued(text1, part2);
        },
        UdpClientEvent::NackCacheMiss { frame_id, requested_chunks } => {
            let part1 = number_field("frame_id"@, frame_id as nat);
            lemma_number_entry("frame_id"@, frame_id as nat);
            lemma_alone(part1);
            let text1 = part1;
            let part2 = number_field("requested_chunks"@, requested_chunks as nat);
            lemma_number_entry("requested_chunks"@, requested_chunks as nat);
            lemma_glued(text1, part2);
        },
        UdpClientEvent::NackHandled { frame_id, requested_chunks } => {
            let part1 = number_field("frame_id"@, frame_id as nat);
            lemma_number_entry("frame_id"@, frame_id as nat);
            lemma_alone(part1);
            let text1 = part1;
            let part2 = number_field("requested_chunks"@, requested_chunks as nat);
            lemma_number_entry("requested_chunks"@, requested_chunks as nat);
            lemma_glued(text1, part2);
        },
        _ => {},
    }
}
} // verus!
