//! Where the fields of packets and records stand, byte by byte.
use vstd::prelude::*;

use crate::bytes::{
    be_bytes, law_be_value_of_bytes, lemma_be2, lemma_be4, lemma_be_len, lemma_be_value2,
    lemma_be_value4, lemma_be_value8, lemma_radix,
};
use crate::netprobe::wire::{
    ack_body, ceil_div, chunk_body, decoded_record, decoded_udp_packet, field, hello_body, message_kind,
    next_message, packet_bytes, payload_bytes, payload_seed, record_bytes, status_bytes, status_of,
    ChunkMsg, FrameAckMsg, HelloMsg, UdpStatusMsg, UdpVideoPacketHeader, WireError, WireMessage,
};

verus! {

/// The number in four bytes, most significant first.
pub open spec fn word(data: Seq<u8>, at: int) -> int {
    data[at] * 0x100_0000 + data[at + 1] * 0x1_0000 + data[at + 2] * 0x100 + data[at + 3]
}

/// The number in eight bytes, most significant first.
pub open spec fn long(data: Seq<u8>, at: int) -> int {
    word(data, at) * 0x1_0000_0000 + word(data, at + 4)
}

proof fn lemma_word(data: Seq<u8>, at: int)
    requires
        0 <= at,
        at + 4 <= data.len(),
    ensures
        field(data, at, 4) == word(data, at),
        0 <= word(data, at) <= u32::MAX,
{
    lemma_be_value4(data.subrange(at, at + 4));
}

proof fn lemma_long(data: Seq<u8>, at: int)
    requires
        0 <= at,
        at + 8 <= data.len(),
    ensures
        field(data, at, 8) == long(data, at),
        0 <= long(data, at) <= u64::MAX,
{
    let part = data.subrange(at, at + 8);
    lemma_be_value8(part);
    lemma_be_value4(part.take(4));
    lemma_be_value4(part.skip(4));
    lemma_word(data, at);
    lemma_word(data, at + 4);
}

proof fn lemma_put_word(data: Seq<u8>, at: int, value: u32)
    requires
        0 <= at,
        at + 4 <= data.len(),
        data.subrange(at, at + 4) =~= be_bytes(value as nat, 4),
    ensures
        word(data, at) == value,
{
    lemma_word(data, at);
    lemma_radix();
    law_be_value_of_bytes(value as nat, 4);
}

proof fn lemma_put_long(data: Seq<u8>, at: int, value: u64)
    requires
        0 <= at,
        at + 8 <= data.len(),
        data.subrange(at, at + 8) =~= be_bytes(value as nat, 8),
    ensures
        long(data, at) == value,
{
    lemma_long(data, at);
    lemma_radix();
    law_be_value_of_bytes(value as nat, 8);
}

// ---------------------------------------------------------------------------
// UDP packets
// ---------------------------------------------------------------------------

/// A packet starts with `RANP`, version 1 and its type; then come the session,
/// the frame, the chunk and the number of chunks, the sizes of frame and payload
/// and the time of sending, and from byte 47 on the payload.
#[verifier::rlimit(60)]
pub proof fn law_packet_layout(header: UdpVideoPacketHeader, payload: Seq<u8>)
    ensures
        ({
            let packet = packet_bytes(header, payload);
            &&& packet.len() == 47 + payload.len()
            &&& packet[0] == 0x52 && packet[1] == 0x41 && packet[2] == 0x4e && packet[3] == 0x50
            &&& packet[4] == 0 && packet[5] == 1
            &&& packet[6] == header.packet_type
            &&& long(packet, 7) == header.session_id
            &&& long(packet, 15) == header.frame_id
            &&& word(packet, 23) == header.chunk_index
            &&& word(packet, 27) == header.chunk_count
            &&& word(packet, 31) == header.frame_size
            &&& word(packet, 35) == header.payload_len
            &&& long(packet, 39) == header.sent_unix_us
            &&& packet.skip(47) == payload
        }),
{
    broadcast use lemma_be_len;

    let packet = packet_bytes(header, payload);
    lemma_be4(0x5241_4e50);
    lemma_be2(1);
    lemma_put_long(packet, 7, header.session_id);
    lemma_put_long(packet, 15, header.frame_id);
    lemma_put_word(packet, 23, header.chunk_index);
    lemma_put_word(packet, 27, header.chunk_count);
    lemma_put_word(packet, 31, header.frame_size);
    lemma_put_word(packet, 35, header.payload_len);
    lemma_put_long(packet, 39, header.sent_unix_us);
    assert(packet.skip(47) =~= payload);
}

/// Bytes are a packet exactly if there are 47 of them or more, they start with
/// `RANP` and version 1, the type is one of the five, the payload is as long as
/// its field says, and the type allows that length: none for a bye and an
/// announcement, whole chunk numbers for a request, 44 bytes for a report. The
/// fields are read from their places.
#[verifier::rlimit(60)]
pub proof fn law_packet_is_read(data: Seq<u8>)
    ensures
        decoded_udp_packet(data) is Ok <==> {
            &&& data.len() >= 47
            &&& data[0] == 0x52 && data[1] == 0x41 && data[2] == 0x4e && data[3] == 0x50
            &&& data[4] == 0 && data[5] == 1
            &&& 1 <= data[6] <= 5
            &&& word(data, 35) == data.len() - 47
            &&& data[6] == 2 || data[6] == 4 ==> data.len() == 47
            &&& data[6] == 3 ==> (data.len() - 47) % 4 == 0
            &&& data[6] == 5 ==> data.len() == 91
        },
        decoded_udp_packet(data) matches Ok(header) ==> {
            &&& header.packet_type == data[6]
            &&& header.session_id == long(data, 7)
            &&& header.frame_id == long(data, 15)
            &&& header.chunk_index == word(data, 23)
            &&& header.chunk_count == word(data, 27)
            &&& header.frame_size == word(data, 31)
            &&& header.payload_len == word(data, 35)
            &&& header.sent_unix_us == long(data, 39)
        },
{
    if data.len() >= 47 {
        lemma_word(data, 0);
        lemma_be_value2(data.subrange(4, 6));
        lemma_long(data, 7);
        lemma_long(data, 15);
        lemma_word(data, 23);
        lemma_word(data, 27);
        lemma_word(data, 31);
        lemma_word(data, 35);
        lemma_long(data, 39);
    }
}

/// Bytes that are no packet are refused for the first thing that is wrong with
/// them.
#[verifier::rlimit(60)]
pub proof fn law_packet_is_refused(data: Seq<u8>)
    ensures
        ({
            let res = decoded_udp_packet(data);
            let named = data[0] == 0x52 && data[1] == 0x41 && data[2] == 0x4e && data[3] == 0x50 && data[4]
                == 0 && data[5] == 1;
            let kind = data[6];
            &&& data.len() < 47 <==> res == Err::<UdpVideoPacketHeader, _>(WireError::PacketTooShort)
            &&& data.len() >= 47 ==> {
                &&& !named <==> res == Err::<UdpVideoPacketHeader, _>(WireError::PacketVersion)
                &&& named && (kind == 0 || kind > 5) <==> res == Err::<UdpVideoPacketHeader, _>(
                    WireError::PacketType,
                )
                &&& named && 1 <= kind <= 5 && word(data, 35) != data.len() - 47 <==> res == Err::<
                    UdpVideoPacketHeader,
                    _,
                >(WireError::PacketPayloadLength)
            }
        }),
{
    if data.len() >= 47 {
        lemma_word(data, 0);
        lemma_be_value2(data.subrange(4, 6));
        lemma_word(data, 35);
    }
}

/// A report is six numbers in a row: the largest frame number, the frames
/// completed, given up and open, the chunks and the announcements.
pub proof fn law_report_layout(status: UdpStatusMsg)
    ensures
        ({
            let bytes = status_bytes(status);
            &&& bytes.len() == 44
            &&& long(bytes, 0) == status.last_observed_frame_id
            &&& long(bytes, 8) == status.frames_complete
            &&& long(bytes, 16) == status.frames_skipped
            &&& word(bytes, 24) == status.open_frames
            &&& long(bytes, 28) == status.chunks_total
            &&& long(bytes, 36) == status.announce_packets_total
        }),
{
    broadcast use lemma_be_len;

    let bytes = status_bytes(status);
    lemma_put_long(bytes, 0, status.last_observed_frame_id);
    lemma_put_long(bytes, 8, status.frames_complete);
    lemma_put_long(bytes, 16, status.frames_skipped);
    lemma_put_word(bytes, 24, status.open_frames);
    lemma_put_long(bytes, 28, status.chunks_total);
    lemma_put_long(bytes, 36, status.announce_packets_total);
}

/// A report is read from the places that it is written to.
pub proof fn law_report_is_read(data: Seq<u8>)
    requires
        data.len() == 44,
    ensures
        ({
            let status = status_of(data);
            &&& status.last_observed_frame_id == long(data, 0)
            &&& status.frames_complete == long(data, 8)
            &&& status.frames_skipped == long(data, 16)
            &&& status.open_frames == word(data, 24)
            &&& status.chunks_total == long(data, 28)
            &&& status.announce_packets_total == long(data, 36)
        }),
{
    lemma_long(data, 0);
    lemma_long(data, 8);
    lemma_long(data, 16);
    lemma_word(data, 24);
    lemma_long(data, 28);
    lemma_long(data, 36);
}

// ---------------------------------------------------------------------------
// Records
// ---------------------------------------------------------------------------

/// A record is its length in four bytes, not counting these, the kind of its
/// message, the body and the payload.
pub proof fn law_record_layout(kind: u8, body: Seq<u8>, payload: Seq<u8>)
    requires
        1 + body.len() + payload.len() <= u32::MAX,
    ensures
        ({
            let record = record_bytes(kind, body, payload);
            &&& record.len() == 5 + body.len() + payload.len()
            &&& word(record, 0) == 1 + body.len() + payload.len()
            &&& record[4] == kind
            &&& record.subrange(5, 5 + body.len() as int) == body
            &&& record.skip(5 + body.len() as int) == payload
        }),
{
    broadcast use lemma_be_len;

    let record = record_bytes(kind, body, payload);
    lemma_put_word(record, 0, (1 + body.len() + payload.len()) as u32);
    assert(record.subrange(5, 5 + body.len() as int) =~= body);
    assert(record.skip(5 + body.len() as int) =~= payload);
}

/// Greetings, chunks, acknowledgements and goodbyes have the kinds 1 to 4.
pub proof fn law_message_kinds(message: WireMessage)
    ensures
        message_kind(message) == match message {
            WireMessage::Hello(_) => 1u8,
            WireMessage::Chunk(_) => 2u8,
            WireMessage::FrameAck(_) => 3u8,
            WireMessage::Bye => 4u8,
        },
{
}

/// The body of a greeting: `RANP`, version 1, the sizes of chunk and frame, the
/// rate, the duration, the window and the mode.
#[verifier::rlimit(60)]
pub proof fn law_greeting_layout(hello: HelloMsg)
    ensures
        ({
            let body = hello_body(hello);
            &&& body.len() == 27
            &&& body[0] == 0x52 && body[1] == 0x41 && body[2] == 0x4e && body[3] == 0x50
            &&& body[4] == 0 && body[5] == 1
            &&& word(body, 6) == hello.chunk_size
            &&& word(body, 10) == hello.frame_size
            &&& word(body, 14) == hello.fps
            &&& word(body, 18) == hello.duration_sec
            &&& word(body, 22) == hello.window_bytes
            &&& body[26] == hello.mode
        }),
{
    broadcast use lemma_be_len;

    let body = hello_body(hello);
    lemma_be4(0x5241_4e50);
    lemma_be2(1);
    lemma_put_word(body, 6, hello.chunk_size);
    lemma_put_word(body, 10, hello.frame_size);
    lemma_put_word(body, 14, hello.fps);
    lemma_put_word(body, 18, hello.duration_sec);
    lemma_put_word(body, 22, hello.window_bytes);
}

/// The body of a chunk: the frame, the chunk and the number of chunks, the size
/// of the frame, the time of sending and the length of the payload.
pub proof fn law_chunk_layout(chunk: ChunkMsg)
    ensures
        ({
            let body = chunk_body(chunk);
            &&& body.len() == 32
            &&& long(body, 0) == chunk.frame_id
            &&& word(body, 8) == chunk.chunk_index
            &&& word(body, 12) == chunk.chunk_count
            &&& word(body, 16) == chunk.frame_size
            &&& long(body, 20) == chunk.sent_unix_us
            &&& word(body, 28) == chunk.payload_len
        }),
{
    broadcast use lemma_be_len;

    let body = chunk_body(chunk);
    lemma_put_long(body, 0, chunk.frame_id);
    lemma_put_word(body, 8, chunk.chunk_index);
    lemma_put_word(body, 12, chunk.chunk_count);
    lemma_put_word(body, 16, chunk.frame_size);
    lemma_put_long(body, 20, chunk.sent_unix_us);
    lemma_put_word(body, 28, chunk.payload_len);
}

/// The body of an acknowledgement: the frame, the chunks seen and their number,
/// the size of the frame and the bytes seen, two times, and whether the frame is
/// complete.
#[verifier::rlimit(60)]
pub proof fn law_acknowledgement_layout(ack: FrameAckMsg)
    ensures
        ({
            let body = ack_body(ack);
            &&& body.len() == 41
            &&& long(body, 0) == ack.frame_id
            &&& word(body, 8) == ack.chunks_seen
            &&& word(body, 12) == ack.chunk_count
            &&& word(body, 16) == ack.frame_size
            &&& word(body, 20) == ack.bytes_seen
            &&& long(body, 24) == ack.complete_unix_us
            &&& long(body, 32) == ack.receive_elapsed_us
            &&& body[40] == if ack.complete {
                1u8
            } else {
                0u8
            }
        }),
{
    broadcast use lemma_be_len;

    let body = ack_body(ack);
    lemma_put_long(body, 0, ack.frame_id);
    lemma_put_word(body, 8, ack.chunks_seen);
    lemma_put_word(body, 12, ack.chunk_count);
    lemma_put_word(body, 16, ack.frame_size);
    lemma_put_word(body, 20, ack.bytes_seen);
    lemma_put_long(body, 24, ack.complete_unix_us);
    lemma_put_long(body, 32, ack.receive_elapsed_us);
}

/// A record without its length is a message exactly if its kind is known and its
/// length is that of the kind: a greeting of 27 bytes with the right name and
/// version, a chunk of 32 bytes and the payload that it announces, an
/// acknowledgement of 41 bytes, or a goodbye of none.
#[verifier::rlimit(60)]
pub proof fn law_record_is_read(record: Seq<u8>)
    requires
        record.len() > 0,
    ensures
        decoded_record(record) matches Ok(WireMessage::Hello(_)) <==> record[0] == 1 && record.len() == 28
            && record[1] == 0x52 && record[2] == 0x41 && record[3] == 0x4e && record[4] == 0x50 && record[5]
            == 0 && record[6] == 1,
        decoded_record(record) matches Ok(WireMessage::Chunk(_)) <==> record[0] == 2 && record.len() >= 33
            && word(record, 29) == record.len() - 33,
        decoded_record(record) matches Ok(WireMessage::FrameAck(_)) <==> record[0] == 3 && record.len() == 42,
        decoded_record(record) matches Ok(WireMessage::Bye) <==> record[0] == 4 && record.len() == 1,
        decoded_record(record) matches Ok(WireMessage::Hello(hello)) ==> hello.chunk_size == word(record, 7)
            && hello.frame_size == word(record, 11) && hello.fps == word(record, 15) && hello.duration_sec
            == word(record, 19) && hello.window_bytes == word(record, 23) && hello.mode == record[27],
        decoded_record(record) matches Ok(WireMessage::Chunk(chunk)) ==> chunk.frame_id == long(record, 1)
            && chunk.chunk_index == word(record, 9) && chunk.chunk_count == word(record, 13)
            && chunk.frame_size == word(record, 17) && chunk.sent_unix_us == long(record, 21)
            && chunk.payload_len == word(record, 29),
        decoded_record(record) matches Ok(WireMessage::FrameAck(ack)) ==> ack.frame_id == long(record, 1)
            && ack.chunks_seen == word(record, 9) && ack.chunk_count == word(record, 13) && ack.frame_size
            == word(record, 17) && ack.bytes_seen == word(record, 21) && ack.complete_unix_us == long(
            record,
            25,
        ) && ack.receive_elapsed_us == long(record, 33) && ack.complete == (record[41] != 0),
        record[0] == 0 || record[0] > 4 ==> decoded_record(record) == Err::<WireMessage, WireError>(
            WireError::MessageKind,
        ),
{
    let data = record.skip(1);
    if data.len() >= 27 {
        lemma_word(data, 0);
        lemma_be_value2(data.subrange(4, 6));
        lemma_word(data, 6);
        lemma_word(data, 10);
        lemma_word(data, 14);
        lemma_word(data, 18);
        lemma_word(data, 22);
    }
    if data.len() >= 32 {
        lemma_long(data, 0);
        lemma_word(data, 8);
        lemma_word(data, 12);
        lemma_word(data, 16);
        lemma_long(data, 20);
        lemma_word(data, 28);
    }
    if data.len() >= 41 {
        lemma_word(data, 20);
        lemma_long(data, 24);
        lemma_long(data, 32);
    }
}

/// The next message of a stream is the record behind the length that the stream
/// starts with. Fewer than four bytes hold none. A length of zero or over sixteen
/// mebibytes, a record cut short and a record that is no message are refused.
pub proof fn law_stream_is_cut_into_records(stream: Seq<u8>)
    ensures
        next_message(stream) == Ok::<Option<(WireMessage, int)>, WireError>(None) <==> stream.len() < 4,
        stream.len() >= 4 && (word(stream, 0) == 0 || word(stream, 0) > 16_777_216) <==> next_message(stream)
            == Err::<Option<(WireMessage, int)>, WireError>(WireError::RecordLength),
        stream.len() >= 4 && 0 < word(stream, 0) <= 16_777_216 && stream.len() < 4 + word(stream, 0)
            <==> next_message(stream) == Err::<Option<(WireMessage, int)>, WireError>(
            WireError::RecordTruncated,
        ),
        next_message(stream) matches Ok(Some((message, taken))) ==> taken == 4 + word(stream, 0) && taken
            <= stream.len() && decoded_record(stream.subrange(4, taken)) == Ok::<WireMessage, WireError>(
            message,
        ),
{
    if stream.len() >= 4 {
        lemma_word(stream, 0);
    }
}

// ---------------------------------------------------------------------------
// Payloads
// ---------------------------------------------------------------------------

/// A frame has as many chunks as are needed for its bytes and no more.
pub proof fn law_chunk_count(size: int, chunk: int)
    requires
        0 < size,
        0 < chunk,
    ensures
        (ceil_div(size, chunk) - 1) * chunk < size <= ceil_div(size, chunk) * chunk,
{
    let sum = size + chunk - 1;
    vstd::arithmetic::div_mod::lemma_fundamental_div_mod(sum, chunk);
    let count = sum / chunk;
    let rest = sum % chunk;
    assert(chunk * count == count * chunk && (count - 1) * chunk == count * chunk - chunk) by (nonlinear_arith);
}

/// The bytes of a synthetic payload count up, modulo 256.
pub proof fn law_payload_counts_up(frame_id: u64, chunk_index: u32, len: nat, at: int)
    requires
        0 <= at,
        at + 1 < len,
    ensures
        payload_bytes(frame_id, chunk_index, len).len() == len,
        payload_bytes(frame_id, chunk_index, len)[at + 1] as int == (payload_bytes(
            frame_id,
            chunk_index,
            len,
        )[at] + 1) % 256,
{
}

/// A payload starts with a byte that tells frames and chunks apart: 167 times the
/// frame number, with the bits of the chunk number flipped, both modulo 256.
pub proof fn law_payload_starts_with_its_place(frame_id: u64, chunk_index: u32, len: nat)
    requires
        len > 0,
    ensures
        payload_bytes(frame_id, chunk_index, len)[0] == ((167 * frame_id) % 256) as u8 ^ (chunk_index % 256)
            as u8,
{
    let low = ((frame_id * 1_315_423_911) % 0x1_0000_0000_0000_0000) as u64;
    lemma_low_byte(frame_id as int);
    lemma_flipped(low, chunk_index as u64);
    assert(payload_seed(frame_id, chunk_index) == low ^ chunk_index as u64);
}

proof fn lemma_low_byte(n: int)
    ensures
        (n * 1_315_423_911) % 0x1_0000_0000_0000_0000 % 256 == (167 * n) % 256,
{
    let product = n * 1_315_423_911;
    vstd::arithmetic::div_mod::lemma_mod_mod(product, 256, 0x100_0000_0000_0000);
    vstd::arithmetic::div_mod::lemma_mod_multiples_vanish(5_138_374 * n, 167 * n, 256);
    assert(256 * (5_138_374 * n) + 167 * n == product);
}

proof fn lemma_flipped(one: u64, other: u64)
    ensures
        (one ^ other) % 256 == ((one % 256) as u8 ^ (other % 256) as u8) as u64,
{
    assert((one ^ other) % 256 == ((one % 256) as u8 ^ (other % 256) as u8) as u64) by (bit_vector);
}

} // verus!
