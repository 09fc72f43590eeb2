//! The probe's wire format: UDP packets and length-prefixed TCP records, all
//! integers most significant byte first.
use vstd::prelude::*;
use vstd::slice::slice_subrange;

use crate::bytes::{
    be_bytes, be_value, be32_byte, law_be_bytes_of_value, law_be_value_of_bytes, lemma_be2, lemma_be8,
    lemma_be_len, lemma_be_value2, lemma_be_value4, lemma_be_value8, lemma_radix, push_be16, push_be32,
    push_be64,
};

verus! {

/// `RANP`.
pub const MAGIC: u32 = 0x5241_4e50;

pub const VERSION: u16 = 1;

pub const MSG_HELLO: u8 = 1;

pub const MSG_CHUNK: u8 = 2;

pub const MSG_FRAME_ACK: u8 = 3;

pub const MSG_BYE: u8 = 4;

pub const UDP_PACKET_VIDEO: u8 = 1;

pub const UDP_PACKET_BYE: u8 = 2;

pub const UDP_PACKET_NACK: u8 = 3;

pub const UDP_PACKET_ANNOUNCE: u8 = 4;

pub const UDP_PACKET_STATUS: u8 = 5;

pub const UDP_PACKET_HEADER_LEN: usize = 47;

pub const UDP_STATUS_BODY_LEN: usize = 44;

pub const HELLO_BODY_LEN: usize = 27;

pub const CHUNK_BODY_LEN: usize = 32;

pub const ACK_BODY_LEN: usize = 41;

pub const MAX_RECORD_LEN: usize = 16_777_216;

pub const MAX_UDP_PACKET_LEN: usize = 65_507;

#[derive(Clone, Copy, Debug, PartialEq, Eq, Structural)]
pub struct HelloMsg {
    pub chunk_size: u32,
    pub frame_size: u32,
    pub fps: u32,
    pub duration_sec: u32,
    pub window_bytes: u32,
    pub mode: u8,
}

#[derive(Clone, Copy, Debug, PartialEq, Eq, Structural)]
pub struct ChunkMsg {
    pub frame_id: u64,
    pub chunk_index: u32,
    pub chunk_count: u32,
    pub frame_size: u32,
    pub sent_unix_us: u64,
    pub payload_len: u32,
}

#[derive(Clone, Copy, Debug, PartialEq, Eq, Structural)]
pub struct FrameAckMsg {
    pub frame_id: u64,
    pub chunks_seen: u32,
    pub chunk_count: u32,
    pub frame_size: u32,
    pub bytes_seen: u32,
    pub complete_unix_us: u64,
    pub receive_elapsed_us: u64,
    pub complete: bool,
}

#[derive(Clone, Copy, Debug, PartialEq, Eq, Structural)]
pub enum WireMessage {
    Hello(HelloMsg),
    Chunk(ChunkMsg),
    FrameAck(FrameAckMsg),
    Bye,
}

#[derive(Clone, Copy, Debug, PartialEq, Eq, Structural)]
pub struct UdpVideoPacketHeader {
    pub packet_type: u8,
    pub session_id: u64,
    pub frame_id: u64,
    pub chunk_index: u32,
    pub chunk_count: u32,
    pub frame_size: u32,
    pub payload_len: u32,
    pub sent_unix_us: u64,
}

#[derive(Clone, Copy, Debug, PartialEq, Eq, Structural)]
pub struct UdpStatusMsg {
    pub last_observed_frame_id: u64,
    pub frames_complete: u64,
    pub frames_skipped: u64,
    pub open_frames: u32,
    pub chunks_total: u64,
    pub announce_packets_total: u64,
}

/// The class of a [`WireError`], as the standard library names it.
#[derive(Clone, Copy, Debug, PartialEq, Eq, Structural)]
pub enum ErrorKind {
    InvalidData,
    InvalidInput,
    UnexpectedEof,
}

/// Why bytes are no message, or a message cannot be written.
#[derive(Clone, Copy, Debug, PartialEq, Eq, Structural)]
pub enum WireError {
    U16Truncated,
    U32Truncated,
    U64Truncated,
    PacketTooShort,
    PacketVersion,
    PacketType,
    PacketPayloadLength,
    ByePayload,
    AnnouncePayload,
    NackPayload,
    StatusPacketLength,
    StatusLength,
    RecordOverflow,
    RecordTooLong,
    RecordLength,
    RecordTruncated,
    HelloLength,
    RecordVersion,
    ChunkLength,
    ChunkPayloadLength,
    AckLength,
    ByeLength,
    MessageKind,
}

impl WireError {
    /// The class of the error.
    pub open spec fn class(self) -> ErrorKind {
        match self {
            WireError::U16Truncated
            | WireError::U32Truncated
            | WireError::U64Truncated
            | WireError::RecordTruncated => ErrorKind::UnexpectedEof,
            WireError::RecordOverflow | WireError::RecordTooLong => ErrorKind::InvalidInput,
            _ => ErrorKind::InvalidData,
        }
    }

    /// The class of the error.
    pub fn kind(&self) -> (kind: ErrorKind)
        ensures
            kind == self.class(),
    {
        match self {
            WireError::U16Truncated
            | WireError::U32Truncated
            | WireError::U64Truncated
            | WireError::RecordTruncated => ErrorKind::UnexpectedEof,
            WireError::RecordOverflow | WireError::RecordTooLong => ErrorKind::InvalidInput,
            _ => ErrorKind::InvalidData,
        }
    }

    /// The error in words.
    pub open spec fn words(self) -> Seq<char> {
        match self {
            WireError::U16Truncated => "u16 truncated"@,
            WireError::U32Truncated => "u32 truncated"@,
            WireError::U64Truncated => "u64 truncated"@,
            WireError::PacketTooShort => "UDP packet is shorter than header"@,
            WireError::PacketVersion => "unsupported UDP protocol version"@,
            WireError::PacketType => "unknown UDP packet type"@,
            WireError::PacketPayloadLength => "UDP payload length mismatch"@,
            WireError::ByePayload => "UDP bye packet must not have payload"@,
            WireError::AnnouncePayload => "UDP announce packet must not have payload"@,
            WireError::NackPayload => "UDP nack payload must contain u32 chunk indexes"@,
            WireError::StatusPacketLength => "UDP status packet has invalid payload length"@,
            WireError::StatusLength => "UDP status payload has invalid length"@,
            WireError::RecordOverflow => "record length overflow"@,
            WireError::RecordTooLong => "record length exceeds maximum"@,
            WireError::RecordLength => "invalid record length"@,
            WireError::RecordTruncated => "failed to fill whole buffer"@,
            WireError::HelloLength => "bad hello length"@,
            WireError::RecordVersion => "unsupported protocol version"@,
            WireError::ChunkLength => "bad chunk length"@,
            WireError::ChunkPayloadLength => "chunk payload length mismatch"@,
            WireError::AckLength => "bad ack length"@,
            WireError::ByeLength => "bad bye length"@,
            WireError::MessageKind => "unknown message kind"@,
        }
    }

    /// The error in words.
    pub fn message(&self) -> (text: &'static str)
        ensures
            text@ == self.words(),
    {
        match self {
            WireError::U16Truncated => "u16 truncated",
            WireError::U32Truncated => "u32 truncated",
            WireError::U64Truncated => "u64 truncated",
            WireError::PacketTooShort => "UDP packet is shorter than header",
            WireError::PacketVersion => "unsupported UDP protocol version",
            WireError::PacketType => "unknown UDP packet type",
            WireError::PacketPayloadLength => "UDP payload length mismatch",
            WireError::ByePayload => "UDP bye packet must not have payload",
            WireError::AnnouncePayload => "UDP announce packet must not have payload",
            WireError::NackPayload => "UDP nack payload must contain u32 chunk indexes",
            WireError::StatusPacketLength => "UDP status packet has invalid payload length",
            WireError::StatusLength => "UDP status payload has invalid length",
            WireError::RecordOverflow => "record length overflow",
            WireError::RecordTooLong => "record length exceeds maximum",
            WireError::RecordLength => "invalid record length",
            WireError::RecordTruncated => "failed to fill whole buffer",
            WireError::HelloLength => "bad hello length",
            WireError::RecordVersion => "unsupported protocol version",
            WireError::ChunkLength => "bad chunk length",
            WireError::ChunkPayloadLength => "chunk payload length mismatch",
            WireError::AckLength => "bad ack length",
            WireError::ByeLength => "bad bye length",
            WireError::MessageKind => "unknown message kind",
        }
    }
}

// ---------------------------------------------------------------------------
// Fields
// ---------------------------------------------------------------------------

/// `bytes` with `part` in the place of what stood from `at` on.
pub open spec fn spliced(bytes: Seq<u8>, at: int, part: Seq<u8>) -> Seq<u8> {
    bytes.take(at) + part + bytes.skip(at + part.len())
}

/// The number in the `width` bytes from `at` on.
pub open spec fn field(data: Seq<u8>, at: int, width: nat) -> nat {
    be_value(data.subrange(at, at + width))
}

pub fn put_u16(out: &mut [u8], cursor: &mut usize, value: u16)
    requires
        *old(cursor) + 2 <= old(out).len(),
    ensures
        *final(cursor) == *old(cursor) + 2,
        final(out)@ == spliced(old(out)@, *old(cursor) as int, be_bytes(value as nat, 2)),
{
    let at: usize = *cursor;
    proof {
        lemma_be2(value as nat);
    }
    out[at] = (value / 0x100) as u8;
    out[at + 1] = (value % 256) as u8;
    *cursor = at + 2;
    assert(out@ =~= spliced(old(out)@, at as int, be_bytes(value as nat, 2)));
}

pub fn put_u32(out: &mut [u8], cursor: &mut usize, value: u32)
    requires
        *old(cursor) + 4 <= old(out).len(),
    ensures
        *final(cursor) == *old(cursor) + 4,
        final(out)@ == spliced(old(out)@, *old(cursor) as int, be_bytes(value as nat, 4)),
{
    broadcast use lemma_be_len;

    let at: usize = *cursor;
    out[at] = be32_byte(value, 0);
    out[at + 1] = be32_byte(value, 1);
    out[at + 2] = be32_byte(value, 2);
    out[at + 3] = be32_byte(value, 3);
    *cursor = at + 4;
    assert(out@ =~= spliced(old(out)@, at as int, be_bytes(value as nat, 4)));
}

pub fn put_u64(out: &mut [u8], cursor: &mut usize, value: u64)
    requires
        *old(cursor) + 8 <= old(out).len(),
    ensures
        *final(cursor) == *old(cursor) + 8,
        final(out)@ == spliced(old(out)@, *old(cursor) as int, be_bytes(value as nat, 8)),
{
    broadcast use lemma_be_len;

    proof {
        lemma_be8(value as nat);
    }
    put_u32(out, cursor, (value / 0x1_0000_0000) as u32);
    put_u32(out, cursor, (value % 0x1_0000_0000) as u32);
    assert(out@ =~= spliced(old(out)@, *old(cursor) as int, be_bytes(value as nat, 8)));
}

pub fn get_u16(data: &[u8], cursor: &mut usize) -> (res: Result<u16, WireError>)
    ensures
        match res {
            Ok(value) => {
                &&& *old(cursor) + 2 <= data.len()
                &&& *final(cursor) == *old(cursor) + 2
                &&& value == field(data@, *old(cursor) as int, 2)
            },
            Err(err) => {
                &&& *old(cursor) + 2 > data.len()
                &&& *final(cursor) == *old(cursor)
                &&& err == WireError::U16Truncated
            },
        },
{
    let at: usize = *cursor;
    if at > data.len() || data.len() - at < 2 {
        return Err(WireError::U16Truncated);
    }
    proof {
        lemma_be_value2(data@.subrange(at as int, at + 2));
    }
    *cursor = at + 2;
    Ok(data[at] as u16 * 0x100 + data[at + 1] as u16)
}

pub fn get_u32(data: &[u8], cursor: &mut usize) -> (res: Result<u32, WireError>)
    ensures
        match res {
            Ok(value) => {
                &&& *old(cursor) + 4 <= data.len()
                &&& *final(cursor) == *old(cursor) + 4
                &&& value == field(data@, *old(cursor) as int, 4)
            },
            Err(err) => {
                &&& *old(cursor) + 4 > data.len()
                &&& *final(cursor) == *old(cursor)
                &&& err == WireError::U32Truncated
            },
        },
{
    let at: usize = *cursor;
    if at > data.len() || data.len() - at < 4 {
        return Err(WireError::U32Truncated);
    }
    proof {
        lemma_be_value4(data@.subrange(at as int, at + 4));
    }
    *cursor = at + 4;
    Ok(
        data[at] as u32 * 0x100_0000 + data[at + 1] as u32 * 0x1_0000 + data[at + 2] as u32 * 0x100
            + data[at + 3] as u32,
    )
}

pub fn get_u64(data: &[u8], cursor: &mut usize) -> (res: Result<u64, WireError>)
    ensures
        match res {
            Ok(value) => {
                &&& *old(cursor) + 8 <= data.len()
                &&& *final(cursor) == *old(cursor) + 8
                &&& value == field(data@, *old(cursor) as int, 8)
            },
            Err(err) => {
                &&& *old(cursor) + 8 > data.len()
                &&& *final(cursor) == *old(cursor)
                &&& err == WireError::U64Truncated
            },
        },
{
    let at: usize = *cursor;
    if at > data.len() || data.len() - at < 8 {
        return Err(WireError::U64Truncated);
    }
    proof {
        let part = data@.subrange(at as int, at + 8);
        lemma_be_value8(part);
        lemma_be_value4(part.take(4));
        lemma_be_value4(part.skip(4));
    }
    let high: u32 = data[at] as u32 * 0x100_0000 + data[at + 1] as u32 * 0x1_0000
        + data[at + 2] as u32 * 0x100 + data[at + 3] as u32;
    let low: u32 = data[at + 4] as u32 * 0x100_0000 + data[at + 5] as u32 * 0x1_0000
        + data[at + 6] as u32 * 0x100 + data[at + 7] as u32;
    *cursor = at + 8;
    Ok(high as u64 * 0x1_0000_0000 + low as u64)
}

// ---------------------------------------------------------------------------
// UDP packets
// ---------------------------------------------------------------------------

/// The 47 bytes of a packet header.
pub open spec fn header_bytes(header: UdpVideoPacketHeader) -> Seq<u8> {
    be_bytes(MAGIC as nat, 4) + be_bytes(VERSION as nat, 2) + seq![header.packet_type] + be_bytes(
        header.session_id as nat,
        8,
    ) + be_bytes(header.frame_id as nat, 8) + be_bytes(header.chunk_index as nat, 4) + be_bytes(
        header.chunk_count as nat,
        4,
    ) + be_bytes(header.frame_size as nat, 4) + be_bytes(header.payload_len as nat, 4) + be_bytes(
        header.sent_unix_us as nat,
        8,
    )
}

/// The header that the first 47 bytes of a packet hold.
pub open spec fn header_of(data: Seq<u8>) -> UdpVideoPacketHeader {
    UdpVideoPacketHeader {
        packet_type: data[6],
        session_id: field(data, 7, 8) as u64,
        frame_id: field(data, 15, 8) as u64,
        chunk_index: field(data, 23, 4) as u32,
        chunk_count: field(data, 27, 4) as u32,
        frame_size: field(data, 31, 4) as u32,
        payload_len: field(data, 35, 4) as u32,
        sent_unix_us: field(data, 39, 8) as u64,
    }
}

/// Whether the packet type is one of the five known ones.
pub open spec fn known_packet_type(packet_type: u8) -> bool {
    1 <= packet_type <= 5
}

/// The rule that a packet's payload breaks, if any.
pub open spec fn payload_fault(header: UdpVideoPacketHeader, payload_len: nat) -> Option<WireError> {
    if payload_len != header.payload_len {
        Some(WireError::PacketPayloadLength)
    } else if header.packet_type == UDP_PACKET_BYE && payload_len != 0 {
        Some(WireError::ByePayload)
    } else if header.packet_type == UDP_PACKET_ANNOUNCE && payload_len != 0 {
        Some(WireError::AnnouncePayload)
    } else if header.packet_type == UDP_PACKET_NACK && payload_len % 4 != 0 {
        Some(WireError::NackPayload)
    } else if header.packet_type == UDP_PACKET_STATUS && payload_len != UDP_STATUS_BODY_LEN {
        Some(WireError::StatusPacketLength)
    } else {
        None
    }
}

/// The header of a packet, or why the bytes are no packet.
pub open spec fn decoded_udp_packet(data: Seq<u8>) -> Result<UdpVideoPacketHeader, WireError> {
    if data.len() < UDP_PACKET_HEADER_LEN {
        Err(WireError::PacketTooShort)
    } else if field(data, 0, 4) != MAGIC || field(data, 4, 2) != VERSION {
        Err(WireError::PacketVersion)
    } else if !known_packet_type(data[6]) {
        Err(WireError::PacketType)
    } else {
        match payload_fault(header_of(data), (data.len() - UDP_PACKET_HEADER_LEN) as nat) {
            Some(err) => Err(err),
            None => Ok(header_of(data)),
        }
    }
}

/// Writes the header into the first 47 bytes of `out`.
pub fn encode_udp_packet_header(header: &UdpVideoPacketHeader, out: &mut [u8])
    requires
        old(out).len() >= UDP_PACKET_HEADER_LEN,
    ensures
        final(out)@ == header_bytes(*header) + old(out)@.skip(UDP_PACKET_HEADER_LEN as int),
{
    broadcast use lemma_be_len;

    let mut cursor: usize = 0;
    put_u32(out, &mut cursor, MAGIC);
    put_u16(out, &mut cursor, VERSION);
    assert(out@.take(6) =~= be_bytes(MAGIC as nat, 4) + be_bytes(VERSION as nat, 2));
    out[cursor] = header.packet_type;
    cursor += 1;
    assert(out@.take(7) =~= be_bytes(MAGIC as nat, 4) + be_bytes(VERSION as nat, 2)
        + seq![header.packet_type]);
    put_u64(out, &mut cursor, header.session_id);
    let ghost head = be_bytes(MAGIC as nat, 4) + be_bytes(VERSION as nat, 2)
        + seq![header.packet_type] + be_bytes(header.session_id as nat, 8);
    assert(out@.take(15) =~= head);
    put_u64(out, &mut cursor, header.frame_id);
    assert(out@.take(23) =~= head + be_bytes(header.frame_id as nat, 8));
    put_u32(out, &mut cursor, header.chunk_index);
    let ghost head2 = head + be_bytes(header.frame_id as nat, 8) + be_bytes(header.chunk_index as nat, 4);
    assert(out@.take(27) =~= head2);
    put_u32(out, &mut cursor, header.chunk_count);
    assert(out@.take(31) =~= head2 + be_bytes(header.chunk_count as nat, 4));
    put_u32(out, &mut cursor, header.frame_size);
    let ghost head3 = head2 + be_bytes(header.chunk_count as nat, 4) + be_bytes(
        header.frame_size as nat,
        4,
    );
    assert(out@.take(35) =~= head3);
    put_u32(out, &mut cursor, header.payload_len);
    assert(out@.take(39) =~= head3 + be_bytes(header.payload_len as nat, 4));
    put_u64(out, &mut cursor, header.sent_unix_us);
    assert(out@.take(47) =~= header_bytes(*header));
    assert(out@.skip(47) =~= old(out)@.skip(47));
    assert(out@ =~= header_bytes(*header) + old(out)@.skip(UDP_PACKET_HEADER_LEN as int));
}

/// Reads a packet's header and hands out its payload.
pub fn decode_udp_packet(data: &[u8]) -> (res: Result<(UdpVideoPacketHeader, &[u8]), WireError>)
    ensures
        match res {
            Ok((header, payload)) => {
                &&& decoded_udp_packet(data@) == Ok::<UdpVideoPacketHeader, WireError>(header)
                &&& payload@ == data@.skip(UDP_PACKET_HEADER_LEN as int)
            },
            Err(err) => decoded_udp_packet(data@) == Err::<UdpVideoPacketHeader, WireError>(err),
        },
{
    if data.len() < UDP_PACKET_HEADER_LEN {
        return Err(WireError::PacketTooShort);
    }
    let mut cursor: usize = 0;
    let magic: u32 = get_u32(data, &mut cursor)?;
    let version: u16 = get_u16(data, &mut cursor)?;
    if magic != MAGIC || version != VERSION {
        return Err(WireError::PacketVersion);
    }
    let packet_type: u8 = data[cursor];
    cursor += 1;
    if packet_type != UDP_PACKET_VIDEO && packet_type != UDP_PACKET_BYE && packet_type
        != UDP_PACKET_NACK && packet_type != UDP_PACKET_ANNOUNCE && packet_type
        != UDP_PACKET_STATUS {
        return Err(WireError::PacketType);
    }
    let header = UdpVideoPacketHeader {
        packet_type,
        session_id: get_u64(data, &mut cursor)?,
        frame_id: get_u64(data, &mut cursor)?,
        chunk_index: get_u32(data, &mut cursor)?,
        chunk_count: get_u32(data, &mut cursor)?,
        frame_size: get_u32(data, &mut cursor)?,
        payload_len: get_u32(data, &mut cursor)?,
        sent_unix_us: get_u64(data, &mut cursor)?,
    };
    assert(header == header_of(data@));
    let payload = slice_subrange(data, UDP_PACKET_HEADER_LEN, data.len());
    if payload.len() != header.payload_len as usize {
        return Err(WireError::PacketPayloadLength);
    }
    if header.packet_type == UDP_PACKET_BYE && header.payload_len != 0 {
        return Err(WireError::ByePayload);
    }
    if header.packet_type == UDP_PACKET_ANNOUNCE && header.payload_len != 0 {
        return Err(WireError::AnnouncePayload);
    }
    if header.packet_type == UDP_PACKET_NACK && header.payload_len % 4 != 0 {
        return Err(WireError::NackPayload);
    }
    if header.packet_type == UDP_PACKET_STATUS && header.payload_len as usize
        != UDP_STATUS_BODY_LEN {
        return Err(WireError::StatusPacketLength);
    }
    Ok((header, payload))
}

/// The 44 bytes of a status report.
pub open spec fn status_bytes(status: UdpStatusMsg) -> Seq<u8> {
    be_bytes(status.last_observed_frame_id as nat, 8) + be_bytes(status.frames_complete as nat, 8)
        + be_bytes(status.frames_skipped as nat, 8) + be_bytes(status.open_frames as nat, 4)
        + be_bytes(status.chunks_total as nat, 8) + be_bytes(
        status.announce_packets_total as nat,
        8,
    )
}

/// The report that 44 bytes hold.
pub open spec fn status_of(data: Seq<u8>) -> UdpStatusMsg {
    UdpStatusMsg {
        last_observed_frame_id: field(data, 0, 8) as u64,
        frames_complete: field(data, 8, 8) as u64,
        frames_skipped: field(data, 16, 8) as u64,
        open_frames: field(data, 24, 4) as u32,
        chunks_total: field(data, 28, 8) as u64,
        announce_packets_total: field(data, 36, 8) as u64,
    }
}

/// Writes the report into the first 44 bytes of `out`.
pub fn encode_udp_status(status: &UdpStatusMsg, out: &mut [u8])
    requires
        old(out).len() >= UDP_STATUS_BODY_LEN,
    ensures
        final(out)@ == status_bytes(*status) + old(out)@.skip(UDP_STATUS_BODY_LEN as int),
{
    broadcast use lemma_be_len;

    let mut cursor: usize = 0;
    put_u64(out, &mut cursor, status.last_observed_frame_id);
    put_u64(out, &mut cursor, status.frames_complete);
    let ghost head = be_bytes(status.last_observed_frame_id as nat, 8) + be_bytes(
        status.frames_complete as nat,
        8,
    );
    assert(out@.take(16) =~= head);
    put_u64(out, &mut cursor, status.frames_skipped);
    assert(out@.take(24) =~= head + be_bytes(status.frames_skipped as nat, 8));
    put_u32(out, &mut cursor, status.open_frames);
    let ghost head2 = head + be_bytes(status.frames_skipped as nat, 8) + be_bytes(
        status.open_frames as nat,
        4,
    );
    assert(out@.take(28) =~= head2);
    put_u64(out, &mut cursor, status.chunks_total);
    assert(out@.take(36) =~= head2 + be_bytes(status.chunks_total as nat, 8));
    put_u64(out, &mut cursor, status.announce_packets_total);
    assert(out@.take(44) =~= status_bytes(*status));
    assert(out@.skip(44) =~= old(out)@.skip(44));
    assert(out@ =~= status_bytes(*status) + old(out)@.skip(UDP_STATUS_BODY_LEN as int));
}

/// Reads a status report.
pub fn decode_udp_status(data: &[u8]) -> (res: Result<UdpStatusMsg, WireError>)
    ensures
        match res {
            Ok(status) => data.len() == UDP_STATUS_BODY_LEN && status == status_of(data@),
            Err(err) => data.len() != UDP_STATUS_BODY_LEN && err == WireError::StatusLength,
        },
{
    if data.len() != UDP_STATUS_BODY_LEN {
        return Err(WireError::StatusLength);
    }
    let mut cursor: usize = 0;
    Ok(
        UdpStatusMsg {
            last_observed_frame_id: get_u64(data, &mut cursor)?,
            frames_complete: get_u64(data, &mut cursor)?,
            frames_skipped: get_u64(data, &mut cursor)?,
            open_frames: get_u32(data, &mut cursor)?,
            chunks_total: get_u64(data, &mut cursor)?,
            announce_packets_total: get_u64(data, &mut cursor)?,
        },
    )
}

/// A packet as sent: the header, then the payload.
pub open spec fn packet_bytes(header: UdpVideoPacketHeader, payload: Seq<u8>) -> Seq<u8> {
    header_bytes(header) + payload
}

/// Builds a whole packet.
pub fn udp_packet(header: &UdpVideoPacketHeader, payload: &[u8]) -> (packet: Vec<u8>)
    requires
        payload.len() <= usize::MAX - UDP_PACKET_HEADER_LEN,
    ensures
        packet@ == packet_bytes(*header, payload@),
{
    broadcast use lemma_be_len;

    let mut packet: Vec<u8> = vec![0u8; UDP_PACKET_HEADER_LEN];
    encode_udp_packet_header(header, packet.as_mut_slice());
    assert(packet@ =~= header_bytes(*header));
    packet.extend_from_slice(payload);
    assert(packet@ =~= packet_bytes(*header, payload@));
    packet
}

/// A packet whose type is known and whose payload fits its header and type is
/// read back as it was written.
pub proof fn law_udp_packet_round_trip(header: UdpVideoPacketHeader, payload: Seq<u8>)
    requires
        known_packet_type(header.packet_type),
        payload_fault(header, payload.len()) is None,
    ensures
        decoded_udp_packet(packet_bytes(header, payload)) == Ok::<UdpVideoPacketHeader, WireError>(
            header,
        ),
        packet_bytes(header, payload).skip(UDP_PACKET_HEADER_LEN as int) == payload,
{
    broadcast use lemma_be_len;

    let data = packet_bytes(header, payload);
    lemma_radix();
    lemma_field(data, 0, MAGIC as nat, 4);
    lemma_field(data, 4, VERSION as nat, 2);
    lemma_field(data, 7, header.session_id as nat, 8);
    lemma_field(data, 15, header.frame_id as nat, 8);
    lemma_field(data, 23, header.chunk_index as nat, 4);
    lemma_field(data, 27, header.chunk_count as nat, 4);
    lemma_field(data, 31, header.frame_size as nat, 4);
    lemma_field(data, 35, header.payload_len as nat, 4);
    lemma_field(data, 39, header.sent_unix_us as nat, 8);
    assert(header_of(data) == header);
    assert(data.skip(UDP_PACKET_HEADER_LEN as int) =~= payload);
}

/// Bytes that are read as a packet are the bytes written for what was read.
pub proof fn law_udp_packet_canonical(data: Seq<u8>)
    requires
        decoded_udp_packet(data) is Ok,
    ensures
        packet_bytes(header_of(data), data.skip(UDP_PACKET_HEADER_LEN as int)) == data,
{
    broadcast use lemma_be_len;

    lemma_radix();
    let header = header_of(data);
    law_be_bytes_of_value(data.subrange(0, 4));
    law_be_bytes_of_value(data.subrange(4, 6));
    law_be_bytes_of_value(data.subrange(7, 15));
    law_be_bytes_of_value(data.subrange(15, 23));
    law_be_bytes_of_value(data.subrange(23, 27));
    law_be_bytes_of_value(data.subrange(27, 31));
    law_be_bytes_of_value(data.subrange(31, 35));
    law_be_bytes_of_value(data.subrange(35, 39));
    law_be_bytes_of_value(data.subrange(39, 47));
    assert(data.subrange(0, 4) =~= be_bytes(MAGIC as nat, 4));
    assert(data.subrange(4, 6) =~= be_bytes(VERSION as nat, 2));
    assert(header_bytes(header) =~= data.take(47));
    assert(packet_bytes(header, data.skip(UDP_PACKET_HEADER_LEN as int)) =~= data);
}

/// A status report is read back as it was written.
pub proof fn law_udp_status_round_trip(status: UdpStatusMsg)
    ensures
        status_bytes(status).len() == UDP_STATUS_BODY_LEN,
        status_of(status_bytes(status)) == status,
{
    broadcast use lemma_be_len;

    let data = status_bytes(status);
    lemma_radix();
    lemma_field(data, 0, status.last_observed_frame_id as nat, 8);
    lemma_field(data, 8, status.frames_complete as nat, 8);
    lemma_field(data, 16, status.frames_skipped as nat, 8);
    lemma_field(data, 24, status.open_frames as nat, 4);
    lemma_field(data, 28, status.chunks_total as nat, 8);
    lemma_field(data, 36, status.announce_packets_total as nat, 8);
}

/// A field that holds the bytes of a value reads as that value.
proof fn lemma_field(data: Seq<u8>, at: int, value: nat, width: nat)
    requires
        0 <= at && at + width <= data.len(),
        value < crate::bytes::radix(width),
        data.subrange(at, at + width) =~= be_bytes(value, width),
    ensures
        field(data, at, width) == value,
{
    law_be_value_of_bytes(value, width);
}

// ---------------------------------------------------------------------------
// TCP records
// ---------------------------------------------------------------------------

/// A record on the stream: its length, its kind, its body and its payload.
pub open spec fn record_bytes(kind: u8, body: Seq<u8>, payload: Seq<u8>) -> Seq<u8> {
    be_bytes(1 + body.len() + payload.len(), 4) + seq![kind] + body + payload
}

pub open spec fn hello_body(hello: HelloMsg) -> Seq<u8> {
    be_bytes(MAGIC as nat, 4) + be_bytes(VERSION as nat, 2) + be_bytes(hello.chunk_size as nat, 4)
        + be_bytes(hello.frame_size as nat, 4) + be_bytes(hello.fps as nat, 4) + be_bytes(
        hello.duration_sec as nat,
        4,
    ) + be_bytes(hello.window_bytes as nat, 4) + seq![hello.mode]
}

pub open spec fn chunk_body(chunk: ChunkMsg) -> Seq<u8> {
    be_bytes(chunk.frame_id as nat, 8) + be_bytes(chunk.chunk_index as nat, 4) + be_bytes(
        chunk.chunk_count as nat,
        4,
    ) + be_bytes(chunk.frame_size as nat, 4) + be_bytes(chunk.sent_unix_us as nat, 8) + be_bytes(
        chunk.payload_len as nat,
        4,
    )
}

pub open spec fn ack_body(ack: FrameAckMsg) -> Seq<u8> {
    be_bytes(ack.frame_id as nat, 8) + be_bytes(ack.chunks_seen as nat, 4) + be_bytes(
        ack.chunk_count as nat,
        4,
    ) + be_bytes(ack.frame_size as nat, 4) + be_bytes(ack.bytes_seen as nat, 4) + be_bytes(
        ack.complete_unix_us as nat,
        8,
    ) + be_bytes(ack.receive_elapsed_us as nat, 8) + seq![if ack.complete { 1u8 } else { 0u8 }]
}

/// The kind byte of a message.
pub open spec fn message_kind(message: WireMessage) -> u8 {
    match message {
        WireMessage::Hello(_) => MSG_HELLO,
        WireMessage::Chunk(_) => MSG_CHUNK,
        WireMessage::FrameAck(_) => MSG_FRAME_ACK,
        WireMessage::Bye => MSG_BYE,
    }
}

/// The body of a message.
pub open spec fn message_body(message: WireMessage) -> Seq<u8> {
    match message {
        WireMessage::Hello(hello) => hello_body(hello),
        WireMessage::Chunk(chunk) => chunk_body(chunk),
        WireMessage::FrameAck(ack) => ack_body(ack),
        WireMessage::Bye => seq![],
    }
}

/// Whether a payload of `payload_len` bytes belongs to the message: a chunk says
/// how long its payload is, the other messages have none.
pub open spec fn payload_fits(message: WireMessage, payload_len: nat) -> bool {
    match message {
        WireMessage::Chunk(chunk) => payload_len == chunk.payload_len,
        _ => payload_len == 0,
    }
}

pub open spec fn hello_of(data: Seq<u8>) -> HelloMsg {
    HelloMsg {
        chunk_size: field(data, 6, 4) as u32,
        frame_size: field(data, 10, 4) as u32,
        fps: field(data, 14, 4) as u32,
        duration_sec: field(data, 18, 4) as u32,
        window_bytes: field(data, 22, 4) as u32,
        mode: data[26],
    }
}

pub open spec fn chunk_of(data: Seq<u8>) -> ChunkMsg {
    ChunkMsg {
        frame_id: field(data, 0, 8) as u64,
        chunk_index: field(data, 8, 4) as u32,
        chunk_count: field(data, 12, 4) as u32,
        frame_size: field(data, 16, 4) as u32,
        sent_unix_us: field(data, 20, 8) as u64,
        payload_len: field(data, 28, 4) as u32,
    }
}

pub open spec fn ack_of(data: Seq<u8>) -> FrameAckMsg {
    FrameAckMsg {
        frame_id: field(data, 0, 8) as u64,
        chunks_seen: field(data, 8, 4) as u32,
        chunk_count: field(data, 12, 4) as u32,
        frame_size: field(data, 16, 4) as u32,
        bytes_seen: field(data, 20, 4) as u32,
        complete_unix_us: field(data, 24, 8) as u64,
        receive_elapsed_us: field(data, 32, 8) as u64,
        complete: data[40] != 0,
    }
}

/// The message that a record without its length prefix holds.
pub open spec fn decoded_record(record: Seq<u8>) -> Result<WireMessage, WireError> {
    let data = record.skip(1);
    if record[0] == MSG_HELLO {
        if data.len() != HELLO_BODY_LEN {
            Err(WireError::HelloLength)
        } else if field(data, 0, 4) != MAGIC || field(data, 4, 2) != VERSION {
            Err(WireError::RecordVersion)
        } else {
            Ok(WireMessage::Hello(hello_of(data)))
        }
    } else if record[0] == MSG_CHUNK {
        if data.len() < CHUNK_BODY_LEN {
            Err(WireError::ChunkLength)
        } else if data.len() - CHUNK_BODY_LEN != chunk_of(data).payload_len {
            Err(WireError::ChunkPayloadLength)
        } else {
            Ok(WireMessage::Chunk(chunk_of(data)))
        }
    } else if record[0] == MSG_FRAME_ACK {
        if data.len() != ACK_BODY_LEN {
            Err(WireError::AckLength)
        } else {
            Ok(WireMessage::FrameAck(ack_of(data)))
        }
    } else if record[0] == MSG_BYE {
        if data.len() != 0 {
            Err(WireError::ByeLength)
        } else {
            Ok(WireMessage::Bye)
        }
    } else {
        Err(WireError::MessageKind)
    }
}

/// The first message of a stream of bytes, with the bytes that it takes; nothing
/// where the stream ends inside or before a length prefix.
pub open spec fn next_message(stream: Seq<u8>) -> Result<Option<(WireMessage, int)>, WireError> {
    if stream.len() < 4 {
        Ok(None)
    } else {
        let len = field(stream, 0, 4);
        if len == 0 || len > MAX_RECORD_LEN {
            Err(WireError::RecordLength)
        } else if stream.len() < 4 + len {
            Err(WireError::RecordTruncated)
        } else {
            match decoded_record(stream.subrange(4, 4 + len as int)) {
                Ok(message) => Ok(Some((message, 4 + len as int))),
                Err(err) => Err(err),
            }
        }
    }
}

/// Appends a record.
pub fn write_record(out: &mut Vec<u8>, kind: u8, body: &[u8], payload: &[u8]) -> (res: Result<
    (),
    WireError,
>)
    ensures
        match res {
            Ok(()) => {
                &&& 1 + body.len() + payload.len() <= MAX_RECORD_LEN
                &&& final(out)@ == old(out)@ + record_bytes(kind, body@, payload@)
            },
            Err(err) => {
                &&& final(out)@ == old(out)@
                &&& 1 + body.len() + payload.len() > MAX_RECORD_LEN
                &&& err == if 1 + body.len() + payload.len() > usize::MAX {
                    WireError::RecordOverflow
                } else {
                    WireError::RecordTooLong
                }
            },
        },
{
    let with_body: usize = match 1usize.checked_add(body.len()) {
        Some(value) => value,
        None => {
            return Err(WireError::RecordOverflow);
        },
    };
    let len: usize = match with_body.checked_add(payload.len()) {
        Some(value) => value,
        None => {
            return Err(WireError::RecordOverflow);
        },
    };
    if len > MAX_RECORD_LEN {
        return Err(WireError::RecordTooLong);
    }
    push_be32(out, len as u32);
    out.push(kind);
    out.extend_from_slice(body);
    out.extend_from_slice(payload);
    assert(out@ =~= old(out)@ + record_bytes(kind, body@, payload@));
    Ok(())
}

/// Appends a hello record.
pub fn write_hello(out: &mut Vec<u8>, hello: &HelloMsg) -> (res: Result<(), WireError>)
    ensures
        res is Ok,
        final(out)@ == old(out)@ + record_bytes(MSG_HELLO, hello_body(*hello), seq![]),
{
    broadcast use lemma_be_len;

    let mut body: Vec<u8> = Vec::new();
    push_be32(&mut body, MAGIC);
    push_be16(&mut body, VERSION);
    push_be32(&mut body, hello.chunk_size);
    push_be32(&mut body, hello.frame_size);
    push_be32(&mut body, hello.fps);
    push_be32(&mut body, hello.duration_sec);
    push_be32(&mut body, hello.window_bytes);
    body.push(hello.mode);
    assert(body@ =~= hello_body(*hello));
    let empty: Vec<u8> = Vec::new();
    assert(empty@ =~= seq![]);
    write_record(out, MSG_HELLO, body.as_slice(), empty.as_slice())
}

/// Appends a chunk record with its payload.
pub fn write_chunk(out: &mut Vec<u8>, chunk: &ChunkMsg, payload: &[u8]) -> (res: Result<
    (),
    WireError,
>)
    ensures
        match res {
            Ok(()) => {
                &&& 1 + CHUNK_BODY_LEN + payload.len() <= MAX_RECORD_LEN
                &&& final(out)@ == old(out)@ + record_bytes(MSG_CHUNK, chunk_body(*chunk), payload@)
            },
            Err(err) => {
                &&& final(out)@ == old(out)@
                &&& 1 + CHUNK_BODY_LEN + payload.len() > MAX_RECORD_LEN
                &&& err == if 1 + CHUNK_BODY_LEN + payload.len() > usize::MAX {
                    WireError::RecordOverflow
                } else {
                    WireError::RecordTooLong
                }
            },
        },
{
    broadcast use lemma_be_len;

    let mut body: Vec<u8> = Vec::new();
    push_be64(&mut body, chunk.frame_id);
    push_be32(&mut body, chunk.chunk_index);
    push_be32(&mut body, chunk.chunk_count);
    push_be32(&mut body, chunk.frame_size);
    push_be64(&mut body, chunk.sent_unix_us);
    push_be32(&mut body, chunk.payload_len);
    assert(body@ =~= chunk_body(*chunk));
    write_record(out, MSG_CHUNK, body.as_slice(), payload)
}

/// Appends a frame acknowledgement.
pub fn write_ack(out: &mut Vec<u8>, ack: &FrameAckMsg) -> (res: Result<(), WireError>)
    ensures
        res is Ok,
        final(out)@ == old(out)@ + record_bytes(MSG_FRAME_ACK, ack_body(*ack), seq![]),
{
    broadcast use lemma_be_len;

    let mut body: Vec<u8> = Vec::new();
    push_be64(&mut body, ack.frame_id);
    push_be32(&mut body, ack.chunks_seen);
    push_be32(&mut body, ack.chunk_count);
    push_be32(&mut body, ack.frame_size);
    push_be32(&mut body, ack.bytes_seen);
    push_be64(&mut body, ack.complete_unix_us);
    push_be64(&mut body, ack.receive_elapsed_us);
    body.push(if ack.complete { 1u8 } else { 0u8 });
    assert(body@ =~= ack_body(*ack));
    let empty: Vec<u8> = Vec::new();
    assert(empty@ =~= seq![]);
    write_record(out, MSG_FRAME_ACK, body.as_slice(), empty.as_slice())
}

/// Appends a bye record.
pub fn write_bye(out: &mut Vec<u8>) -> (res: Result<(), WireError>)
    ensures
        res is Ok,
        final(out)@ == old(out)@ + record_bytes(MSG_BYE, seq![], seq![]),
{
    let empty: Vec<u8> = Vec::new();
    assert(empty@ =~= seq![]);
    write_record(out, MSG_BYE, empty.as_slice(), empty.as_slice())
}

/// The length of a record, read from its four-byte prefix.
pub fn record_len(prefix: &[u8]) -> (res: Result<usize, WireError>)
    requires
        prefix.len() == 4,
    ensures
        match res {
            Ok(len) => len == field(prefix@, 0, 4) && 0 < len <= MAX_RECORD_LEN,
            Err(err) => {
                &&& field(prefix@, 0, 4) == 0 || field(prefix@, 0, 4) > MAX_RECORD_LEN
                &&& err == WireError::RecordLength
            },
        },
{
    let mut cursor: usize = 0;
    let len: u32 = get_u32(prefix, &mut cursor)?;
    if len == 0 || len as usize > MAX_RECORD_LEN {
        return Err(WireError::RecordLength);
    }
    Ok(len as usize)
}

/// Reads the message of a record without its length prefix.
pub fn decode_record(record: &[u8]) -> (res: Result<WireMessage, WireError>)
    requires
        record.len() > 0,
    ensures
        res == decoded_record(record@),
{
    let kind: u8 = record[0];
    let data = slice_subrange(record, 1, record.len());
    assert(data@ =~= record@.skip(1));
    let mut cursor: usize = 0;
    if kind == MSG_HELLO {
        if data.len() != HELLO_BODY_LEN {
            return Err(WireError::HelloLength);
        }
        let magic: u32 = get_u32(data, &mut cursor)?;
        let version: u16 = get_u16(data, &mut cursor)?;
        if magic != MAGIC || version != VERSION {
            return Err(WireError::RecordVersion);
        }
        Ok(
            WireMessage::Hello(
                HelloMsg {
                    chunk_size: get_u32(data, &mut cursor)?,
                    frame_size: get_u32(data, &mut cursor)?,
                    fps: get_u32(data, &mut cursor)?,
                    duration_sec: get_u32(data, &mut cursor)?,
                    window_bytes: get_u32(data, &mut cursor)?,
                    mode: data[26],
                },
            ),
        )
    } else if kind == MSG_CHUNK {
        if data.len() < CHUNK_BODY_LEN {
            return Err(WireError::ChunkLength);
        }
        let chunk = ChunkMsg {
            frame_id: get_u64(data, &mut cursor)?,
            chunk_index: get_u32(data, &mut cursor)?,
            chunk_count: get_u32(data, &mut cursor)?,
            frame_size: get_u32(data, &mut cursor)?,
            sent_unix_us: get_u64(data, &mut cursor)?,
            payload_len: get_u32(data, &mut cursor)?,
        };
        let payload_len: usize = data.len() - CHUNK_BODY_LEN;
        if payload_len != chunk.payload_len as usize {
            return Err(WireError::ChunkPayloadLength);
        }
        Ok(WireMessage::Chunk(chunk))
    } else if kind == MSG_FRAME_ACK {
        if data.len() != ACK_BODY_LEN {
            return Err(WireError::AckLength);
        }
        Ok(
            WireMessage::FrameAck(
                FrameAckMsg {
                    frame_id: get_u64(data, &mut cursor)?,
                    chunks_seen: get_u32(data, &mut cursor)?,
                    chunk_count: get_u32(data, &mut cursor)?,
                    frame_size: get_u32(data, &mut cursor)?,
                    bytes_seen: get_u32(data, &mut cursor)?,
                    complete_unix_us: get_u64(data, &mut cursor)?,
                    receive_elapsed_us: get_u64(data, &mut cursor)?,
                    complete: data[40] != 0,
                },
            ),
        )
    } else if kind == MSG_BYE {
        if data.len() != 0 {
            return Err(WireError::ByeLength);
        }
        Ok(WireMessage::Bye)
    } else {
        Err(WireError::MessageKind)
    }
}

/// How many bytes of a stream are read when its next message is asked for: a
/// length prefix, and the record behind it where the length is valid; all that
/// is left where the stream ends before.
pub open spec fn bytes_read(stream: Seq<u8>) -> int {
    if stream.len() < 4 {
        stream.len() as int
    } else if field(stream, 0, 4) == 0 || field(stream, 0, 4) > MAX_RECORD_LEN {
        4
    } else if stream.len() < 4 + field(stream, 0, 4) {
        stream.len() as int
    } else {
        4 + field(stream, 0, 4) as int
    }
}

/// Reads the message at `position` of a stream held in memory and moves behind
/// what it has read, also where that is no message; nothing where the stream
/// ends inside or before a length prefix.
pub fn read_wire_message(stream: &[u8], position: &mut usize) -> (res: Result<
    Option<WireMessage>,
    WireError,
>)
    requires
        *old(position) <= stream.len(),
    ensures
        *final(position) == *old(position) + bytes_read(stream@.skip(*old(position) as int)),
        *final(position) <= stream.len(),
        match res {
            Ok(Some(message)) => next_message(stream@.skip(*old(position) as int)) == Ok::<
                Option<(WireMessage, int)>,
                WireError,
            >(Some((message, *final(position) - *old(position)))),
            Ok(None) => next_message(stream@.skip(*old(position) as int)) == Ok::<
                Option<(WireMessage, int)>,
                WireError,
            >(None),
            Err(err) => next_message(stream@.skip(*old(position) as int)) == Err::<
                Option<(WireMessage, int)>,
                WireError,
            >(err),
        },
{
    let at: usize = *position;
    let ghost rest = stream@.skip(at as int);
    if stream.len() - at < 4 {
        *position = stream.len();
        return Ok(None);
    }
    let prefix = slice_subrange(stream, at, at + 4);
    proof {
        assert(prefix@.subrange(0, 4) =~= rest.subrange(0, 4));
    }
    *position = at + 4;
    let len: usize = record_len(prefix)?;
    if stream.len() - at - 4 < len {
        *position = stream.len();
        return Err(WireError::RecordTruncated);
    }
    let record = slice_subrange(stream, at + 4, at + 4 + len);
    assert(record@ =~= rest.subrange(4, 4 + len));
    *position = at + 4 + len;
    let message = decode_record(record)?;
    Ok(Some(message))
}

/// A message written to a stream, with a payload that belongs to it and within
/// the record limit, is the next message of that stream, whatever follows it.
pub proof fn law_message_round_trip(message: WireMessage, payload: Seq<u8>, rest: Seq<u8>)
    requires
        payload_fits(message, payload.len()),
        1 + message_body(message).len() + payload.len() <= MAX_RECORD_LEN,
    ensures
        next_message(
            record_bytes(message_kind(message), message_body(message), payload) + rest,
        ) == Ok::<Option<(WireMessage, int)>, WireError>(
            Some((message, (5 + message_body(message).len() + payload.len()) as int)),
        ),
{
    broadcast use lemma_be_len;

    let kind = message_kind(message);
    let body = message_body(message);
    let len = 1 + body.len() + payload.len();
    let written = record_bytes(kind, body, payload);
    let stream = written + rest;
    lemma_radix();
    lemma_field(stream, 0, len, 4);
    let record = stream.subrange(4, 4 + len as int);
    assert(record =~= seq![kind] + body + payload);
    let data = record.skip(1);
    assert(data =~= body + payload);
    match message {
        WireMessage::Hello(hello) => {
            lemma_field(data, 0, MAGIC as nat, 4);
            lemma_field(data, 4, VERSION as nat, 2);
            lemma_field(data, 6, hello.chunk_size as nat, 4);
            lemma_field(data, 10, hello.frame_size as nat, 4);
            lemma_field(data, 14, hello.fps as nat, 4);
            lemma_field(data, 18, hello.duration_sec as nat, 4);
            lemma_field(data, 22, hello.window_bytes as nat, 4);
        },
        WireMessage::Chunk(chunk) => {
            lemma_field(data, 0, chunk.frame_id as nat, 8);
            lemma_field(data, 8, chunk.chunk_index as nat, 4);
            lemma_field(data, 12, chunk.chunk_count as nat, 4);
            lemma_field(data, 16, chunk.frame_size as nat, 4);
            lemma_field(data, 20, chunk.sent_unix_us as nat, 8);
            lemma_field(data, 28, chunk.payload_len as nat, 4);
        },
        WireMessage::FrameAck(ack) => {
            lemma_field(data, 0, ack.frame_id as nat, 8);
            lemma_field(data, 8, ack.chunks_seen as nat, 4);
            lemma_field(data, 12, ack.chunk_count as nat, 4);
            lemma_field(data, 16, ack.frame_size as nat, 4);
            lemma_field(data, 20, ack.bytes_seen as nat, 4);
            lemma_field(data, 24, ack.complete_unix_us as nat, 8);
            lemma_field(data, 32, ack.receive_elapsed_us as nat, 8);
        },
        WireMessage::Bye => {},
    }
}

/// Messages, each with its payload, written one after the other.
pub open spec fn stream_bytes(messages: Seq<(WireMessage, Seq<u8>)>) -> Seq<u8>
    decreases messages.len(),
{
    if messages.len() == 0 {
        seq![]
    } else {
        let (message, payload) = messages[0];
        record_bytes(message_kind(message), message_body(message), payload) + stream_bytes(
            messages.skip(1),
        )
    }
}

/// The messages of a stream, up to its end.
pub open spec fn stream_messages(stream: Seq<u8>) -> Result<Seq<WireMessage>, WireError>
    decreases stream.len(),
{
    match next_message(stream) {
        Err(err) => Err(err),
        Ok(None) => Ok(seq![]),
        Ok(Some((message, len))) => if 0 < len <= stream.len() {
            match stream_messages(stream.skip(len)) {
                Ok(rest) => Ok(seq![message] + rest),
                Err(err) => Err(err),
            }
        } else {
            Ok(seq![message])
        },
    }
}

/// A stream is read as the messages that were written to it, in their order.
pub proof fn law_stream_round_trip(messages: Seq<(WireMessage, Seq<u8>)>)
    requires
        forall|i: int|
            0 <= i < messages.len() ==> payload_fits(
                (#[trigger] messages[i]).0,
                messages[i].1.len(),
            ) && 1 + message_body(messages[i].0).len() + messages[i].1.len() <= MAX_RECORD_LEN,
    ensures
        stream_messages(stream_bytes(messages)) == Ok::<Seq<WireMessage>, WireError>(
            messages.map_values(|written: (WireMessage, Seq<u8>)| written.0),
        ),
    decreases messages.len(),
{
    broadcast use lemma_be_len;

    let stream = stream_bytes(messages);
    let read = messages.map_values(|written: (WireMessage, Seq<u8>)| written.0);
    if messages.len() == 0 {
        assert(read =~= seq![]);
    } else {
        let (message, payload) = messages[0];
        let rest = messages.skip(1);
        let record = record_bytes(message_kind(message), message_body(message), payload);
        assert forall|i: int| 0 <= i < rest.len() implies payload_fits(
            (#[trigger] rest[i]).0,
            rest[i].1.len(),
        ) && 1 + message_body(rest[i].0).len() + rest[i].1.len() <= MAX_RECORD_LEN by {
            assert(rest[i] == messages[i + 1]);
        }
        law_stream_round_trip(rest);
        law_message_round_trip(message, payload, stream_bytes(rest));
        assert(stream.skip(record.len() as int) =~= stream_bytes(rest));
        assert(seq![message] + rest.map_values(|written: (WireMessage, Seq<u8>)| written.0) =~= read);
    }
}

// ---------------------------------------------------------------------------
// Frames and chunks
// ---------------------------------------------------------------------------

/// Where the byte pattern of a chunk starts.
pub open spec fn payload_seed(frame_id: u64, chunk_index: u32) -> u64 {
    ((frame_id * 1_315_423_911) % 0x1_0000_0000_0000_0000) as u64 ^ chunk_index as u64
}

/// The synthetic payload of a chunk: bytes that count up from its seed.
pub open spec fn payload_bytes(frame_id: u64, chunk_index: u32, len: nat) -> Seq<u8> {
    Seq::new(len, |i: int| ((payload_seed(frame_id, chunk_index) + i) % 256) as u8)
}

/// Fills a buffer with the synthetic payload of a chunk.
pub fn fill_payload(payload: &mut [u8], frame_id: u64, chunk_index: u32)
    ensures
        final(payload)@ == payload_bytes(frame_id, chunk_index, old(payload).len() as nat),
{
    let seed: u64 = frame_id.wrapping_mul(1_315_423_911) ^ (chunk_index as u64);
    assert(seed == payload_seed(frame_id, chunk_index));
    let mut index: usize = 0;
    while index < payload.len()
        invariant
            index <= payload.len(),
            payload.len() == old(payload).len(),
            seed == payload_seed(frame_id, chunk_index),
            forall|i: int| 0 <= i < index ==> #[trigger] payload@[i] == ((seed + i) % 256) as u8,
        decreases payload.len() - index,
    {
        let value: u64 = seed.wrapping_add(index as u64);
        proof {
            let sum = seed + index;
            assert(value % 256 == sum % 256) by {
                if sum > u64::MAX {
                    assert(value == sum - 0x1_0000_0000_0000_0000);
                }
            }
        }
        payload[index] = (value % 256) as u8;
        index += 1;
    }
    assert(payload@ =~= payload_bytes(frame_id, chunk_index, old(payload).len() as nat));
}

/// The quotient rounded up.
pub open spec fn ceil_div(value: int, divisor: int) -> int {
    (value + divisor - 1) / divisor
}

pub proof fn lemma_ceil_div_bounds(value: int, divisor: int)
    requires
        0 < value,
        0 < divisor,
    ensures
        0 < ceil_div(value, divisor) <= value,
{
    let sum = value + divisor - 1;
    let quotient = sum / divisor;
    vstd::arithmetic::div_mod::lemma_fundamental_div_mod(sum, divisor);
    assert(0 < quotient <= value) by (nonlinear_arith)
        requires
            sum == divisor * quotient + sum % divisor,
            0 <= sum % divisor < divisor,
            sum == value + divisor - 1,
            value > 0,
            divisor > 0,
    ;
}

/// The quotient rounded up: the number of chunks of a frame.
pub fn div_ceil_u32(value: u32, divisor: u32) -> (quotient: u32)
    requires
        divisor > 0,
    ensures
        quotient == ceil_div(value as int, divisor as int),
{
    let whole: u32 = value / divisor;
    let rest: u32 = value % divisor;
    proof {
        vstd::arithmetic::div_mod::lemma_fundamental_div_mod(value as int, divisor as int);
        let sum = value + divisor - 1;
        if rest == 0 {
            assert(sum == divisor * whole + (divisor - 1));
            vstd::arithmetic::div_mod::lemma_fundamental_div_mod_converse(
                sum,
                divisor as int,
                whole as int,
                divisor - 1,
            );
        } else {
            assert(sum == divisor * (whole + 1) + (rest - 1)) by (nonlinear_arith)
                requires
                    sum == value + divisor - 1,
                    value == divisor * whole + rest,
            ;
            vstd::arithmetic::div_mod::lemma_fundamental_div_mod_converse(
                sum,
                divisor as int,
                whole + 1,
                rest - 1,
            );
            assert(whole + 1 <= value) by (nonlinear_arith)
                requires
                    value == divisor * whole + rest,
                    rest > 0,
                    divisor > 0,
            ;
        }
    }
    if rest != 0 {
        whole + 1
    } else {
        whole
    }
}

/// The payload length of chunk `index` of a frame cut into chunks of
/// `chunk_size` bytes.
pub open spec fn chunk_len(frame_size: int, chunk_size: int, index: int) -> int {
    let rest = frame_size - index * chunk_size;
    if rest < chunk_size { rest } else { chunk_size }
}

/// The bytes of a frame in its first `count` chunks.
pub open spec fn chunk_total(frame_size: int, chunk_size: int, count: nat) -> int
    decreases count,
{
    if count == 0 {
        0
    } else {
        chunk_total(frame_size, chunk_size, (count - 1) as nat) + chunk_len(
            frame_size,
            chunk_size,
            count - 1,
        )
    }
}

/// The payload length of one chunk of a frame.
pub fn chunk_payload_len(frame_size: u32, chunk_size: u32, index: u32) -> (len: u32)
    requires
        chunk_size > 0,
        index < ceil_div(frame_size as int, chunk_size as int),
    ensures
        len == chunk_len(frame_size as int, chunk_size as int, index as int),
        0 < len <= chunk_size,
{
    proof {
        lemma_chunk_start(frame_size as int, chunk_size as int, index as int);
    }
    let start: u32 = (index as u64 * chunk_size as u64) as u32;
    let rest: u32 = frame_size - start;
    if rest < chunk_size {
        rest
    } else {
        chunk_size
    }
}

proof fn lemma_chunk_start(frame_size: int, chunk_size: int, index: int)
    requires
        0 <= frame_size,
        0 < chunk_size,
        0 <= index < ceil_div(frame_size, chunk_size),
    ensures
        0 <= index * chunk_size < frame_size,
{
    let count = ceil_div(frame_size, chunk_size);
    vstd::arithmetic::div_mod::lemma_fundamental_div_mod(frame_size + chunk_size - 1, chunk_size);
    assert(index * chunk_size < frame_size) by (nonlinear_arith)
        requires
            frame_size + chunk_size - 1 >= chunk_size * count,
            index + 1 <= count,
            0 < chunk_size,
    ;
    assert(0 <= index * chunk_size) by (nonlinear_arith)
        requires
            0 <= index,
            0 < chunk_size,
    ;
}

/// A frame is cut into its size divided by the chunk size, rounded up, chunks;
/// none of them is empty or longer than the chunk size, all but the last are
/// full, and together they hold the frame's bytes.
pub proof fn law_chunks_cover_frame(frame_size: int, chunk_size: int)
    requires
        0 < frame_size,
        0 < chunk_size,
    ensures
        chunk_total(frame_size, chunk_size, ceil_div(frame_size, chunk_size) as nat) == frame_size,
        forall|index: int|
            0 <= index < ceil_div(frame_size, chunk_size) ==> 0 < #[trigger] chunk_len(
                frame_size,
                chunk_size,
                index,
            ) <= chunk_size,
        forall|index: int|
            0 <= index < ceil_div(frame_size, chunk_size) - 1 ==> #[trigger] chunk_len(
                frame_size,
                chunk_size,
                index,
            ) == chunk_size,
{
    let count = ceil_div(frame_size, chunk_size);
    vstd::arithmetic::div_mod::lemma_fundamental_div_mod(frame_size + chunk_size - 1, chunk_size);
    lemma_ceil_div_bounds(frame_size, chunk_size);
    assert(frame_size <= count * chunk_size) by (nonlinear_arith)
        requires
            frame_size + chunk_size - 1 == chunk_size * count + (frame_size + chunk_size - 1) % chunk_size,
            (frame_size + chunk_size - 1) % chunk_size < chunk_size,
    ;
    assert forall|index: int| 0 <= index < count implies 0 < #[trigger] chunk_len(
        frame_size,
        chunk_size,
        index,
    ) <= chunk_size by {
        lemma_chunk_start(frame_size, chunk_size, index);
    }
    assert forall|index: int| 0 <= index < count - 1 implies #[trigger] chunk_len(
        frame_size,
        chunk_size,
        index,
    ) == chunk_size by {
        lemma_chunk_start(frame_size, chunk_size, index + 1);
        assert((index + 1) * chunk_size == index * chunk_size + chunk_size) by (nonlinear_arith);
    }
    lemma_full_chunks(frame_size, chunk_size, (count - 1) as nat);
    assert((count - 1) * chunk_size + chunk_size == count * chunk_size) by (nonlinear_arith);
    assert(chunk_len(frame_size, chunk_size, count - 1) == frame_size - (count - 1) * chunk_size);
}

proof fn lemma_full_chunks(frame_size: int, chunk_size: int, count: nat)
    requires
        0 < chunk_size,
        forall|index: int| 0 <= index < count ==> #[trigger] chunk_len(frame_size, chunk_size, index) == chunk_size,
    ensures
        chunk_total(frame_size, chunk_size, count) == count * chunk_size,
    decreases count,
{
    if count > 0 {
        lemma_full_chunks(frame_size, chunk_size, (count - 1) as nat);
        assert(chunk_len(frame_size, chunk_size, count - 1) == chunk_size);
        assert((count - 1) * chunk_size + chunk_size == count * chunk_size) by (nonlinear_arith);
    } else {
        assert(count * chunk_size == 0) by (nonlinear_arith)
            requires
                count == 0,
        ;
    }
}

} // verus!
