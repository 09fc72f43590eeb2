use rustadmin_probes::bytes::{le32_at, le64_at, push_le16, push_le32, push_le64};
use rustadmin_probes::netprobe::config::SendMode;
use rustadmin_probes::netprobe::wire::{
    chunk_payload_len, decode_record, decode_udp_packet, decode_udp_status, div_ceil_u32,
    encode_udp_packet_header, encode_udp_status, fill_payload, get_u16, get_u32, get_u64, put_u16, put_u32,
    put_u64, read_wire_message, record_len, udp_packet, write_ack, write_bye, write_chunk, write_hello,
    write_record, ChunkMsg, ErrorKind, FrameAckMsg, HelloMsg, UdpStatusMsg, UdpVideoPacketHeader, WireError,
    WireMessage, ACK_BODY_LEN, CHUNK_BODY_LEN, HELLO_BODY_LEN, MAGIC, MAX_RECORD_LEN, MSG_BYE, MSG_CHUNK,
    MSG_FRAME_ACK, MSG_HELLO, UDP_PACKET_ANNOUNCE, UDP_PACKET_BYE, UDP_PACKET_HEADER_LEN, UDP_PACKET_NACK,
    UDP_PACKET_STATUS, UDP_PACKET_VIDEO, UDP_STATUS_BODY_LEN, VERSION,
};

fn write_hello_to_vec(out: &mut Vec<u8>, hello: &HelloMsg) {
    let mut body = [0_u8; HELLO_BODY_LEN];
    let mut cursor = 0;
    put_u32(&mut body, &mut cursor, MAGIC);
    put_u16(&mut body, &mut cursor, VERSION);
    put_u32(&mut body, &mut cursor, hello.chunk_size);
    put_u32(&mut body, &mut cursor, hello.frame_size);
    put_u32(&mut body, &mut cursor, hello.fps);
    put_u32(&mut body, &mut cursor, hello.duration_sec);
    put_u32(&mut body, &mut cursor, hello.window_bytes);
    body[cursor] = hello.mode;
    write_record_to_vec(out, MSG_HELLO, &body, &[]);
}

fn write_record_to_vec(out: &mut Vec<u8>, kind: u8, body: &[u8], payload: &[u8]) {
    let len = 1 + body.len() + payload.len();
    out.extend_from_slice(&(len as u32).to_be_bytes());
    out.push(kind);
    out.extend_from_slice(body);
    out.extend_from_slice(payload);
}

#[test]
fn chunk_count_rounds_up() {
    assert_eq!(div_ceil_u32(43_090, 1024), 43);
    assert_eq!(div_ceil_u32(1024, 1024), 1);
    assert_eq!(div_ceil_u32(1025, 1024), 2);
}

#[test]
fn hello_round_trip() {
    let hello = HelloMsg {
        chunk_size: 1024,
        frame_size: 43_090,
        fps: 30,
        duration_sec: 20,
        window_bytes: 262_144,
        mode: SendMode::Window.wire(),
    };
    let mut bytes = Vec::new();
    write_hello_to_vec(&mut bytes, &hello);
    let mut position = 0;
    let message = read_wire_message(&bytes, &mut position).unwrap().unwrap();
    match message {
        WireMessage::Hello(decoded) => {
            assert_eq!(decoded.chunk_size, hello.chunk_size);
            assert_eq!(decoded.frame_size, hello.frame_size);
            assert_eq!(decoded.mode, hello.mode);
        }
        _ => panic!("unexpected message"),
    }
}

#[test]
fn chunk_rejects_payload_mismatch() {
    let mut body = [0_u8; CHUNK_BODY_LEN];
    let mut cursor = 0;
    put_u64(&mut body, &mut cursor, 1);
    put_u32(&mut body, &mut cursor, 0);
    put_u32(&mut body, &mut cursor, 2);
    put_u32(&mut body, &mut cursor, 2048);
    put_u64(&mut body, &mut cursor, 123);
    put_u32(&mut body, &mut cursor, 1024);

    let mut bytes = Vec::new();
    write_record_to_vec(&mut bytes, MSG_CHUNK, &body, &[0_u8; 16]);
    let mut position = 0;
    let err = read_wire_message(&bytes, &mut position).unwrap_err();
    assert_eq!(err.kind(), ErrorKind::InvalidData);
}

#[test]
fn udp_packet_round_trip() {
    let header = UdpVideoPacketHeader {
        packet_type: UDP_PACKET_VIDEO,
        session_id: 7,
        frame_id: 11,
        chunk_index: 3,
        chunk_count: 9,
        frame_size: 4096,
        payload_len: 4,
        sent_unix_us: 1234,
    };
    let mut packet = vec![0_u8; UDP_PACKET_HEADER_LEN + 4];
    encode_udp_packet_header(&header, &mut packet[..UDP_PACKET_HEADER_LEN]);
    packet[UDP_PACKET_HEADER_LEN..].copy_from_slice(&[1, 2, 3, 4]);

    let (decoded, payload) = decode_udp_packet(&packet).unwrap();
    assert_eq!(decoded, header);
    assert_eq!(payload, &[1, 2, 3, 4]);
}

#[test]
fn udp_packet_rejects_payload_mismatch() {
    let header = UdpVideoPacketHeader {
        packet_type: UDP_PACKET_VIDEO,
        session_id: 7,
        frame_id: 11,
        chunk_index: 3,
        chunk_count: 9,
        frame_size: 4096,
        payload_len: 8,
        sent_unix_us: 1234,
    };
    let mut packet = vec![0_u8; UDP_PACKET_HEADER_LEN + 4];
    encode_udp_packet_header(&header, &mut packet[..UDP_PACKET_HEADER_LEN]);
    let err = decode_udp_packet(&packet).unwrap_err();
    assert_eq!(err.kind(), ErrorKind::InvalidData);
}

#[test]
fn udp_nack_packet_round_trip() {
    let header = UdpVideoPacketHeader {
        packet_type: UDP_PACKET_NACK,
        session_id: 99,
        frame_id: 42,
        chunk_index: 0,
        chunk_count: 40,
        frame_size: 43_090,
        payload_len: 8,
        sent_unix_us: 5678,
    };
    let mut packet = vec![0_u8; UDP_PACKET_HEADER_LEN + 8];
    encode_udp_packet_header(&header, &mut packet[..UDP_PACKET_HEADER_LEN]);
    let mut cursor = UDP_PACKET_HEADER_LEN;
    put_u32(&mut packet, &mut cursor, 7);
    put_u32(&mut packet, &mut cursor, 13);

    let (decoded, payload) = decode_udp_packet(&packet).unwrap();
    assert_eq!(decoded, header);
    let mut cursor = 0;
    assert_eq!(get_u32(payload, &mut cursor).unwrap(), 7);
    assert_eq!(get_u32(payload, &mut cursor).unwrap(), 13);
}

#[test]
fn udp_announce_packet_round_trip() {
    let header = UdpVideoPacketHeader {
        packet_type: UDP_PACKET_ANNOUNCE,
        session_id: 99,
        frame_id: 42,
        chunk_index: 0,
        chunk_count: 40,
        frame_size: 43_090,
        payload_len: 0,
        sent_unix_us: 5678,
    };
    let mut packet = vec![0_u8; UDP_PACKET_HEADER_LEN];
    encode_udp_packet_header(&header, &mut packet);

    let (decoded, payload) = decode_udp_packet(&packet).unwrap();
    assert_eq!(decoded, header);
    assert!(payload.is_empty());
}

#[test]
fn udp_announce_rejects_payload() {
    let header = UdpVideoPacketHeader {
        packet_type: UDP_PACKET_ANNOUNCE,
        session_id: 99,
        frame_id: 42,
        chunk_index: 0,
        chunk_count: 40,
        frame_size: 43_090,
        payload_len: 4,
        sent_unix_us: 5678,
    };
    let mut packet = vec![0_u8; UDP_PACKET_HEADER_LEN + 4];
    encode_udp_packet_header(&header, &mut packet[..UDP_PACKET_HEADER_LEN]);
    let err = decode_udp_packet(&packet).unwrap_err();
    assert_eq!(err.kind(), ErrorKind::InvalidData);
}

#[test]
fn udp_status_packet_round_trip() {
    let status = UdpStatusMsg {
        last_observed_frame_id: 99,
        frames_complete: 88,
        frames_skipped: 7,
        open_frames: 4,
        chunks_total: 1234,
        announce_packets_total: 96,
    };
    let header = UdpVideoPacketHeader {
        packet_type: UDP_PACKET_STATUS,
        session_id: 55,
        frame_id: status.last_observed_frame_id,
        chunk_index: 0,
        chunk_count: 0,
        frame_size: 0,
        payload_len: UDP_STATUS_BODY_LEN as u32,
        sent_unix_us: 5678,
    };
    let mut packet = vec![0_u8; UDP_PACKET_HEADER_LEN + UDP_STATUS_BODY_LEN];
    encode_udp_packet_header(&header, &mut packet[..UDP_PACKET_HEADER_LEN]);
    encode_udp_status(&status, &mut packet[UDP_PACKET_HEADER_LEN..]);

    let (decoded, payload) = decode_udp_packet(&packet).unwrap();
    assert_eq!(decoded, header);
    assert_eq!(decode_udp_status(payload).unwrap(), status);
}

#[test]
fn udp_status_rejects_bad_payload_len() {
    let header = UdpVideoPacketHeader {
        packet_type: UDP_PACKET_STATUS,
        session_id: 55,
        frame_id: 99,
        chunk_index: 0,
        chunk_count: 0,
        frame_size: 0,
        payload_len: 4,
        sent_unix_us: 5678,
    };
    let mut packet = vec![0_u8; UDP_PACKET_HEADER_LEN + 4];
    encode_udp_packet_header(&header, &mut packet[..UDP_PACKET_HEADER_LEN]);
    let err = decode_udp_packet(&packet).unwrap_err();
    assert_eq!(err.kind(), ErrorKind::InvalidData);
}

#[test]
fn udp_nack_rejects_partial_chunk_index() {
    let header = UdpVideoPacketHeader {
        packet_type: UDP_PACKET_NACK,
        session_id: 99,
        frame_id: 42,
        chunk_index: 0,
        chunk_count: 40,
        frame_size: 43_090,
        payload_len: 3,
        sent_unix_us: 5678,
    };
    let mut packet = vec![0_u8; UDP_PACKET_HEADER_LEN + 3];
    encode_udp_packet_header(&header, &mut packet[..UDP_PACKET_HEADER_LEN]);
    let err = decode_udp_packet(&packet).unwrap_err();
    assert_eq!(err.kind(), ErrorKind::InvalidData);
}

#[test]
fn header_bytes_are_big_endian() {
    let header = UdpVideoPacketHeader {
        packet_type: UDP_PACKET_VIDEO,
        session_id: 0x0102_0304_0506_0708,
        frame_id: 1,
        chunk_index: 2,
        chunk_count: 3,
        frame_size: 4,
        payload_len: 1,
        sent_unix_us: 5,
    };
    let packet = udp_packet(&header, &[9]);
    assert_eq!(packet.len(), 48);
    assert_eq!(&packet[..15], &[0x52, 0x41, 0x4e, 0x50, 0, 1, 1, 1, 2, 3, 4, 5, 6, 7, 8]);
    assert_eq!(packet[22], 1);
    assert_eq!(packet[26], 2);
    assert_eq!(packet[47], 9);
}

#[test]
fn every_packet_error_has_an_input() {
    let good = UdpVideoPacketHeader {
        packet_type: UDP_PACKET_VIDEO,
        session_id: 1,
        frame_id: 2,
        chunk_index: 0,
        chunk_count: 1,
        frame_size: 1,
        payload_len: 0,
        sent_unix_us: 3,
    };
    assert_eq!(decode_udp_packet(&[0; 46]).unwrap_err(), WireError::PacketTooShort);
    let mut packet = udp_packet(&good, &[]);
    packet[0] = 0;
    assert_eq!(decode_udp_packet(&packet).unwrap_err(), WireError::PacketVersion);
    let mut packet = udp_packet(&good, &[]);
    packet[5] = 2;
    assert_eq!(decode_udp_packet(&packet).unwrap_err(), WireError::PacketVersion);
    let mut packet = udp_packet(&good, &[]);
    packet[6] = 6;
    let err = decode_udp_packet(&packet).unwrap_err();
    assert_eq!(err, WireError::PacketType);
    assert_eq!(err.message(), "unknown UDP packet type");
    let bye = UdpVideoPacketHeader { packet_type: UDP_PACKET_BYE, payload_len: 1, ..good };
    assert_eq!(decode_udp_packet(&udp_packet(&bye, &[0])).unwrap_err(), WireError::ByePayload);
    let nack = UdpVideoPacketHeader { packet_type: UDP_PACKET_NACK, payload_len: 2, ..good };
    assert_eq!(decode_udp_packet(&udp_packet(&nack, &[0, 0])).unwrap_err(), WireError::NackPayload);
    let status = UdpVideoPacketHeader { packet_type: UDP_PACKET_STATUS, payload_len: 0, ..good };
    assert_eq!(decode_udp_packet(&udp_packet(&status, &[])).unwrap_err(), WireError::StatusPacketLength);
    let announce = UdpVideoPacketHeader { packet_type: UDP_PACKET_ANNOUNCE, payload_len: 1, ..good };
    assert_eq!(decode_udp_packet(&udp_packet(&announce, &[0])).unwrap_err(), WireError::AnnouncePayload);
    assert_eq!(decode_udp_packet(&udp_packet(&good, &[0])).unwrap_err(), WireError::PacketPayloadLength);
    assert_eq!(decode_udp_status(&[0; 43]).unwrap_err(), WireError::StatusLength);
}

#[test]
fn messages_follow_each_other_on_a_stream() {
    let hello = HelloMsg {
        chunk_size: 1,
        frame_size: 2,
        fps: 3,
        duration_sec: 4,
        window_bytes: 5,
        mode: 9,
    };
    let chunk = ChunkMsg {
        frame_id: 10,
        chunk_index: 1,
        chunk_count: 2,
        frame_size: 6,
        sent_unix_us: 77,
        payload_len: 3,
    };
    let ack = FrameAckMsg {
        frame_id: 10,
        chunks_seen: 2,
        chunk_count: 2,
        frame_size: 6,
        bytes_seen: 6,
        complete_unix_us: 88,
        receive_elapsed_us: 99,
        complete: true,
    };
    let mut stream = Vec::new();
    write_hello(&mut stream, &hello).unwrap();
    write_chunk(&mut stream, &chunk, &[7, 8, 9]).unwrap();
    write_ack(&mut stream, &ack).unwrap();
    write_bye(&mut stream).unwrap();
    let mut position = 0;
    assert_eq!(read_wire_message(&stream, &mut position), Ok(Some(WireMessage::Hello(hello))));
    assert_eq!(position, 4 + 1 + HELLO_BODY_LEN);
    assert_eq!(read_wire_message(&stream, &mut position), Ok(Some(WireMessage::Chunk(chunk))));
    assert_eq!(read_wire_message(&stream, &mut position), Ok(Some(WireMessage::FrameAck(ack))));
    assert_eq!(read_wire_message(&stream, &mut position), Ok(Some(WireMessage::Bye)));
    assert_eq!(position, stream.len());
    assert_eq!(read_wire_message(&stream, &mut position), Ok(None));
}

#[test]
fn every_record_error_has_an_input() {
    let read = |stream: &[u8]| {
        let mut position = 0;
        (read_wire_message(stream, &mut position), position)
    };
    assert_eq!(read(&[0, 0, 1]), (Ok(None), 3));
    assert_eq!(read(&[0, 0, 0, 0, 9]), (Err(WireError::RecordLength), 4));
    assert_eq!(read(&[1, 0, 0, 1, 9, 9]), (Err(WireError::RecordLength), 4));
    assert_eq!(read(&[0, 0, 0, 2, MSG_BYE, 0, 7]), (Err(WireError::ByeLength), 6));
    assert_eq!(read(&[0, 0, 0, 1, 9, 7]), (Err(WireError::MessageKind), 5));
    let truncated = read(&[0, 0, 0, 2, 4]).0.unwrap_err();
    assert_eq!(truncated, WireError::RecordTruncated);
    assert_eq!(truncated.kind(), ErrorKind::UnexpectedEof);
    assert_eq!(record_len(&[1, 0, 0, 0]), Ok(MAX_RECORD_LEN));
    assert_eq!(decode_record(&[MSG_HELLO, 0]), Err(WireError::HelloLength));
    let mut hello = vec![MSG_HELLO];
    hello.extend_from_slice(&[0; HELLO_BODY_LEN]);
    assert_eq!(decode_record(&hello), Err(WireError::RecordVersion));
    assert_eq!(decode_record(&[MSG_CHUNK]), Err(WireError::ChunkLength));
    assert_eq!(decode_record(&[MSG_FRAME_ACK; ACK_BODY_LEN]), Err(WireError::AckLength));
    assert_eq!(decode_record(&[MSG_BYE, 0]), Err(WireError::ByeLength));
    assert_eq!(decode_record(&[9]), Err(WireError::MessageKind));
    let mut out = Vec::new();
    let large = vec![0_u8; MAX_RECORD_LEN];
    let err = write_record(&mut out, MSG_BYE, &[], &large).unwrap_err();
    assert_eq!(err, WireError::RecordTooLong);
    assert_eq!(err.kind(), ErrorKind::InvalidInput);
    assert!(out.is_empty());
    write_record(&mut out, MSG_BYE, &[], &large[1..]).unwrap();
    assert_eq!(out.len(), 4 + MAX_RECORD_LEN);
}

#[test]
fn truncated_fields_leave_the_cursor() {
    let data = [1_u8, 2, 3, 4, 5, 6, 7, 8];
    let mut cursor = 0;
    assert_eq!(get_u16(&data, &mut cursor), Ok(0x0102));
    assert_eq!(get_u64(&data, &mut cursor), Err(WireError::U64Truncated));
    assert_eq!(cursor, 2);
    assert_eq!(get_u32(&data, &mut cursor), Ok(0x0304_0506));
    assert_eq!(get_u32(&data, &mut cursor), Err(WireError::U32Truncated));
    assert_eq!(get_u16(&data, &mut cursor), Ok(0x0708));
    assert_eq!(get_u16(&data, &mut cursor), Err(WireError::U16Truncated));
    let mut far = 100;
    assert_eq!(get_u16(&data, &mut far), Err(WireError::U16Truncated));
}

#[test]
fn little_endian_numbers_read_back() {
    let mut out = Vec::new();
    push_le16(&mut out, 0x0102);
    push_le32(&mut out, 0x0304_0506);
    push_le64(&mut out, 0x0708_090a_0b0c_0d0e);
    assert_eq!(&out[..6], &[2, 1, 6, 5, 4, 3]);
    assert_eq!(le32_at(&out, 2), 0x0304_0506);
    assert_eq!(le64_at(&out, 6), 0x0708_090a_0b0c_0d0e);
}

#[test]
fn payload_counts_up_from_its_seed() {
    let mut payload = [0_u8; 300];
    fill_payload(&mut payload, 3, 5);
    let seed = 3_u64.wrapping_mul(1_315_423_911) ^ 5;
    for (index, byte) in payload.iter().enumerate() {
        assert_eq!(*byte, seed.wrapping_add(index as u64).to_le_bytes()[0]);
    }
    let mut wrapped = [0_u8; 4];
    fill_payload(&mut wrapped, u64::MAX, 0);
    let seed = u64::MAX.wrapping_mul(1_315_423_911);
    assert_eq!(wrapped[0], seed.to_le_bytes()[0]);
}

#[test]
fn chunks_cover_a_frame() {
    for (frame, size) in [(43_090_u32, 1024_u32), (1, 1), (1024, 1024), (1025, 1024), (u32::MAX, u32::MAX)] {
        let count = div_ceil_u32(frame, size);
        let mut total = 0_u64;
        for index in 0..count {
            let len = chunk_payload_len(frame, size, index);
            assert!(len > 0 && len <= size);
            total += u64::from(len);
        }
        assert_eq!(total, u64::from(frame));
    }
}
