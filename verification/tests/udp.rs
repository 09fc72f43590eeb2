use std::collections::BTreeMap;

use rustadmin_probes::netprobe::config::{parse_udp_client, parse_udp_server, UdpClientConfig, UdpServerConfig};
use rustadmin_probes::netprobe::log::{udp_client_event_line, udp_event_line, udp_summary_fields};
use rustadmin_probes::netprobe::tcp_client::FrameEvent;
use rustadmin_probes::netprobe::udp_client::{may_retry_send, UdpAction, UdpClientEvent, UdpSender};
use rustadmin_probes::netprobe::udp_server::{
    should_drop_initial_frame_video, socket_timeout_ms, ExpireReason, OpenKind, PeerAddr, UdpEvent, UdpReceiver, Verdict,
};
use rustadmin_probes::netprobe::wire::{
    decode_udp_packet, decode_udp_status, udp_packet, UdpVideoPacketHeader, WireError, UDP_PACKET_ANNOUNCE,
    UDP_PACKET_BYE, UDP_PACKET_NACK, UDP_PACKET_STATUS, UDP_PACKET_VIDEO,
};

const MS: u64 = 1_000_000;

const PEER: PeerAddr = PeerAddr { v6: false, ip: 0x7f00_0001, port: 9, flowinfo: 0, scope_id: 0 };

fn strings(values: &[&str]) -> Vec<String> {
    values.iter().map(|value| (*value).to_string()).collect()
}

fn server(options: &[&str]) -> UdpServerConfig<String> {
    parse_udp_server(&strings(options)).unwrap()
}

fn client(options: &[&str]) -> UdpClientConfig<String> {
    let mut all = vec!["--connect", "host:1"];
    all.extend_from_slice(options);
    parse_udp_client(&strings(&all)).unwrap()
}

fn packet(packet_type: u8, session_id: u64, frame_id: u64, chunk_index: u32, chunk_count: u32) -> Vec<u8> {
    let header = UdpVideoPacketHeader {
        packet_type,
        session_id,
        frame_id,
        chunk_index,
        chunk_count,
        frame_size: 10 * chunk_count,
        payload_len: if packet_type == UDP_PACKET_VIDEO { 10 } else { 0 },
        sent_unix_us: 5,
    };
    let payload = vec![7_u8; header.payload_len as usize];
    udp_packet(&header, &payload)
}

fn video(frame_id: u64, chunk_index: u32, chunk_count: u32) -> Vec<u8> {
    packet(UDP_PACKET_VIDEO, 1, frame_id, chunk_index, chunk_count)
}

#[test]
fn chunks_complete_their_frame_in_any_order() {
    let config = server(&[]);
    let mut receiver = UdpReceiver::new(0);
    for index in [2, 0, 2] {
        let verdict = receiver.on_datagram(&config, &video(0, index, 3), PEER, MS);
        assert_eq!(verdict, Verdict::Service { session_id: 1 });
    }
    assert_eq!(receiver.counters().frames_complete, 0);
    assert_eq!(receiver.open_frames(), 1);
    receiver.on_datagram(&config, &video(0, 1, 3), PEER, 3 * MS);
    let counters = receiver.counters();
    assert_eq!((counters.frames_complete, counters.chunks_total, counters.bytes_total), (1, 4, 40));
    assert_eq!(receiver.open_frames(), 0);
    assert_eq!(
        receiver.take_log(),
        vec![
            UdpEvent::Peer { addr: PEER },
            UdpEvent::Session { addr: PEER, session_id: 1 },
            UdpEvent::FrameOpened { kind: OpenKind::Chunk(2), frame_id: 0, chunk_count: 3, frame_size: 30 },
            UdpEvent::DuplicateChunk { frame_id: 0, chunk_index: 2 },
            UdpEvent::FrameComplete {
                frame_id: 0,
                chunks_seen: 3,
                chunk_count: 3,
                bytes_seen: 30,
                sender_first_unix_us: 5,
                elapsed_us: 2_000,
            },
        ]
    );
    let late = receiver.on_datagram(&config, &video(0, 1, 3), PEER, 4 * MS);
    assert_eq!(late, Verdict::Ignored);
    assert_eq!(receiver.counters().chunks_total, 5);
    assert_eq!(receiver.open_frames(), 0);
}

#[test]
fn completed_frames_are_forgotten_after_twice_the_timeout() {
    let config = server(&["--frame-timeout-ms", "10"]);
    let mut receiver = UdpReceiver::new(0);
    receiver.on_datagram(&config, &video(0, 0, 1), PEER, 0);
    receiver.on_datagram(&config, &video(1, 0, 1), PEER, 20 * MS);
    assert_eq!(receiver.counters().frames_complete, 2);
    receiver.on_datagram(&config, &video(0, 0, 1), PEER, 20 * MS);
    assert_eq!(receiver.counters().frames_complete, 3);
}

#[test]
fn gaps_open_frames_up_to_the_cap() {
    let config = server(&[]);
    let mut receiver = UdpReceiver::new(0);
    receiver.on_datagram(&config, &video(0, 0, 2), PEER, 0);
    receiver.on_datagram(&config, &video(3, 0, 2), PEER, 0);
    assert_eq!(receiver.open_frames(), 4);
    assert_eq!(receiver.counters().synthetic_frames_opened, 2);
    receiver.take_log();
    receiver.on_datagram(&config, &video(200, 0, 2), PEER, 0);
    assert_eq!(receiver.counters().synthetic_frames_opened, 122);
    assert_eq!(receiver.open_frames(), 125);
    assert!(receiver.take_log().contains(&UdpEvent::FrameGapCapped {
        gap_start: 4,
        gap_end: 200,
        opened: 120,
        cap: 120,
    }));
}

#[test]
fn frames_expire_on_their_own() {
    let config = server(&["--frame-timeout-ms", "100", "--status-interval-ms", "0"]);
    let mut receiver = UdpReceiver::new(0);
    receiver.on_datagram(&config, &video(0, 0, 2), PEER, 0);
    receiver.on_datagram(&config, &video(1, 0, 2), PEER, 50 * MS);
    receiver.take_log();
    assert!(receiver.after_nacks(&config, Some(1), 100 * MS, 0).is_none());
    assert_eq!(receiver.open_frames(), 1);
    assert_eq!(receiver.counters().frames_expired, 1);
    assert_eq!(
        receiver.take_log(),
        vec![UdpEvent::FrameExpired {
            reason: ExpireReason::FrameTimeout,
            frame_id: 0,
            chunks_seen: 1,
            chunk_count: 2,
            missing_chunks: 1,
            bytes_seen: 10,
            frame_size: 20,
            elapsed_us: 100_000,
        }]
    );
    receiver.on_datagram(&config, &video(1, 1, 2), PEER, 120 * MS);
    assert_eq!(receiver.counters().frames_complete, 1);
}

#[test]
fn requests_name_missing_chunks_and_are_spaced() {
    let config = server(&["--nack-delay-ms", "25", "--nack-interval-ms", "30", "--nack-rounds", "2", "--nack-max-chunks", "2"]);
    let mut receiver = UdpReceiver::new(0);
    receiver.on_datagram(&config, &video(5, 1, 5), PEER, 0);
    assert!(receiver.plan_nacks(&config, 24 * MS, 9).is_empty());
    let plans = receiver.plan_nacks(&config, 25 * MS, 9);
    assert_eq!(plans.len(), 1);
    assert_eq!((plans[0].frame_id, plans[0].missing), (5, 2));
    let (header, payload) = decode_udp_packet(&plans[0].packet).unwrap();
    assert_eq!(header.packet_type, UDP_PACKET_NACK);
    assert_eq!((header.session_id, header.frame_id, header.chunk_count), (1, 5, 5));
    assert_eq!((header.frame_size, header.sent_unix_us), (50, 9));
    assert_eq!(payload, &[0, 0, 0, 0, 0, 0, 0, 2]);
    receiver.nack_sent(&config, 5, 2, 25 * MS);
    assert!(receiver.plan_nacks(&config, 54 * MS, 9).is_empty());
    assert_eq!(receiver.plan_nacks(&config, 55 * MS, 9).len(), 1);
    receiver.nack_sent(&config, 5, 2, 55 * MS);
    assert!(receiver.plan_nacks(&config, 500 * MS, 9).is_empty());
    let counters = receiver.counters();
    assert_eq!((counters.nack_packets_sent, counters.nack_chunks_requested), (2, 4));
}

#[test]
fn empty_frames_are_requested_only_on_demand() {
    let mut receiver = UdpReceiver::new(0);
    let config = server(&["--nack-delay-ms", "0"]);
    receiver.on_datagram(&config, &packet(UDP_PACKET_ANNOUNCE, 1, 0, 0, 3), PEER, 0);
    assert_eq!(receiver.counters().announce_packets_total, 1);
    assert!(receiver.plan_nacks(&config, MS, 0).is_empty());
    let eager = server(&["--nack-delay-ms", "0", "--nack-empty-frames"]);
    assert_eq!(receiver.plan_nacks(&eager, MS, 0)[0].missing, 3);
    let off = server(&["--nack-rounds", "0", "--nack-empty-frames"]);
    assert!(receiver.plan_nacks(&off, MS, 0).is_empty());
    assert!(UdpReceiver::new(0).plan_nacks(&eager, MS, 0).is_empty());
}

#[test]
fn a_new_session_replaces_the_old_one() {
    let config = server(&[]);
    let mut receiver = UdpReceiver::new(0);
    receiver.on_datagram(&config, &packet(UDP_PACKET_VIDEO, 1, 9, 0, 2), PEER, 0);
    let other = PeerAddr { port: 10, ..PEER };
    receiver.on_datagram(&config, &packet(UDP_PACKET_VIDEO, 1, 9, 0, 2), other, 0);
    assert_eq!(receiver.peer(), Some(other));
    receiver.take_log();
    receiver.on_datagram(&config, &packet(UDP_PACKET_VIDEO, 2, 0, 0, 2), PEER, 0);
    assert_eq!(receiver.session(), Some(2));
    assert_eq!(receiver.peer(), Some(PEER));
    assert_eq!(receiver.open_frames(), 1);
    assert_eq!(receiver.counters().frames_expired, 1);
    let log = receiver.take_log();
    assert!(matches!(
        log[0],
        UdpEvent::FrameExpired { reason: ExpireReason::SessionReplaced, frame_id: 9, .. }
    ));
    assert_eq!(log[1], UdpEvent::Session { addr: PEER, session_id: 2 });
}

#[test]
fn simulated_loss_is_deterministic() {
    let config = server(&["--drop-every", "3", "--verbose-chunks"]);
    let mut receiver = UdpReceiver::new(0);
    let dropped: Vec<bool> = (0..7)
        .map(|index| receiver.on_datagram(&config, &video(0, index, 9), PEER, 0) == Verdict::Ignored)
        .collect();
    assert_eq!(dropped, [false, false, true, false, false, true, false]);
    assert_eq!(receiver.counters().packets_dropped, 2);
    let config = server(&["--drop-initial-frame-video-every", "5"]);
    let mut receiver = UdpReceiver::new(0);
    for index in 0..2 {
        assert_eq!(receiver.on_datagram(&config, &video(5, index, 2), PEER, 0), Verdict::Ignored);
    }
    assert_eq!(receiver.open_frames(), 0);
    for index in 0..2 {
        receiver.on_datagram(&config, &video(5, index, 2), PEER, 0);
    }
    assert_eq!(receiver.counters().frames_complete, 1);
    assert_eq!(receiver.counters().packets_dropped, 2);
    receiver.on_datagram(&config, &video(6, 0, 1), PEER, 0);
    assert_eq!(receiver.counters().frames_complete, 2);
}

#[test]
fn odd_packets_are_reported() {
    let config = server(&[]);
    let mut receiver = UdpReceiver::new(0);
    assert_eq!(receiver.on_datagram(&config, &[1, 2], PEER, 0), Verdict::Ignored);
    assert_eq!(
        receiver.on_datagram(&config, &packet(UDP_PACKET_NACK, 1, 0, 0, 1), PEER, 0),
        Verdict::Ignored
    );
    receiver.on_datagram(&config, &video(0, 2, 2), PEER, 0);
    receiver.on_datagram(&config, &video(1, 0, 2), PEER, 0);
    receiver.on_datagram(&config, &video(1, 0, 3), PEER, 0);
    let log = receiver.take_log();
    assert_eq!(log[1], UdpEvent::BadPacket { peer: PEER, bytes: 2, error: WireError::PacketTooShort });
    assert!(log.contains(&UdpEvent::BadChunk { frame_id: 0, chunk_index: 2, chunk_count: 2 }));
    assert!(log.contains(&UdpEvent::FrameMismatch {
        frame_id: 1,
        expected_chunks: 2,
        got_chunks: 3,
        expected_size: 20,
        got_size: 30,
    }));
}

#[test]
fn status_reports_come_at_their_interval() {
    let config = server(&["--status-interval-ms", "500"]);
    let mut receiver = UdpReceiver::new(0);
    receiver.on_datagram(&config, &video(0, 0, 1), PEER, 0);
    assert!(receiver.after_nacks(&config, Some(1), 499 * MS, 3).is_none());
    let report = receiver.after_nacks(&config, Some(1), 500 * MS, 3).unwrap();
    receiver.status_sent();
    assert_eq!(receiver.counters().status_packets_sent, 1);
    let (header, payload) = decode_udp_packet(&report).unwrap();
    assert_eq!(header.packet_type, UDP_PACKET_STATUS);
    assert_eq!((header.session_id, header.frame_id, header.sent_unix_us), (1, 0, 3));
    let status = decode_udp_status(payload).unwrap();
    assert_eq!((status.frames_complete, status.open_frames, status.chunks_total), (1, 0, 1));
    assert!(receiver.after_nacks(&config, Some(1), 999 * MS, 3).is_none());
    assert!(receiver.after_nacks(&config, None, 2_000 * MS, 3).is_none());
}

#[test]
fn an_interval_of_zero_turns_reports_off() {
    let config = server(&["--status-interval-ms", "0"]);
    let mut receiver = UdpReceiver::new(0);
    receiver.on_datagram(&config, &video(0, 0, 2), PEER, 0);
    assert!(receiver.after_nacks(&config, Some(1), 60_000 * MS, 3).is_none());
    let bye = packet(UDP_PACKET_BYE, 1, 1, 0, 0);
    assert_eq!(
        receiver.on_datagram(&config, &bye, PEER, 0),
        Verdict::Finished { report_session: None }
    );
}

#[test]
fn a_bye_ends_the_session() {
    let config = server(&[]);
    let mut receiver = UdpReceiver::new(0);
    receiver.on_datagram(&config, &video(0, 0, 2), PEER, 0);
    let bye = packet(UDP_PACKET_BYE, 7, 1, 0, 0);
    assert_eq!(
        receiver.on_datagram(&config, &bye, PEER, 0),
        Verdict::Finished { report_session: Some(1) }
    );
    assert_eq!(receiver.open_frames(), 0);
    assert_eq!(receiver.counters().frames_expired, 1);
    let mut empty = UdpReceiver::new(0);
    assert_eq!(
        empty.on_datagram(&config, &bye, PEER, 0),
        Verdict::Finished { report_session: Some(7) }
    );
    let report = empty.status_packet(7, 0);
    let status = decode_udp_status(&report[47..]).unwrap();
    assert_eq!(status.last_observed_frame_id, u64::MAX);
}

#[test]
fn silence_ends_the_run() {
    let config = server(&["--read-timeout-ms", "100"]);
    let mut receiver = UdpReceiver::new(0);
    receiver.on_datagram(&config, &video(0, 0, 2), PEER, 10 * MS);
    assert!(receiver.has_room());
    assert!(!receiver.read_timed_out(&config, 109 * MS));
    assert!(receiver.read_timed_out(&config, 110 * MS));
    assert_eq!(receiver.open_frames(), 0);
    let forever = server(&["--read-timeout-ms", "0"]);
    assert!(!UdpReceiver::new(0).read_timed_out(&forever, u64::MAX));
    assert_eq!(socket_timeout_ms(&config), Some(25));
    assert_eq!(socket_timeout_ms(&server(&["--nack-interval-ms", "900"])), Some(100));
    assert_eq!(socket_timeout_ms(&server(&["--nack-rounds", "0"])), Some(30_000));
    assert_eq!(socket_timeout_ms(&server(&["--nack-rounds", "0", "--read-timeout-ms", "0"])), None);
}

/// Steps a sender until it waits for its next frame or lingers, and returns the
/// packets that it sends.
fn send_frame(sender: &mut UdpSender, config: &UdpClientConfig<String>, now: u64) -> Vec<Vec<u8>> {
    let mut packets = Vec::new();
    loop {
        match sender.step(config, now, 8) {
            UdpAction::Announce(packet) | UdpAction::Video(packet) => packets.push(packet),
            UdpAction::Sleep { .. } | UdpAction::Late => return packets,
            _ => {}
        }
    }
}

#[test]
fn a_request_is_answered_with_the_packets_sent() {
    let config = client(&["--frame-size", "25", "--payload-size", "10"]);
    let mut sender = UdpSender::new(&config, 1, 0);
    let mut packets = send_frame(&mut sender, &config, 0);
    let announce = packets.remove(0);
    let (header, _) = decode_udp_packet(&announce).unwrap();
    assert_eq!((header.packet_type, header.frame_id, header.chunk_count), (UDP_PACKET_ANNOUNCE, 0, 3));
    assert_eq!(packets.len(), 3);
    assert_eq!(packets[2].len(), 47 + 5);
    sender.take_log();
    assert_eq!((sender.frames_sent(), sender.packets_sent(), sender.bytes_sent()), (1, 3, 25));

    let server_config = server(&["--nack-delay-ms", "0"]);
    let mut receiver = UdpReceiver::new(0);
    receiver.on_datagram(&server_config, &packets[1], PEER, 0);
    let plans = receiver.plan_nacks(&server_config, MS, 0);
    let again = sender.on_control(&plans[0].packet, true);
    assert_eq!(again, vec![packets[0].clone(), packets[2].clone()]);
    for packet in &again {
        receiver.on_datagram(&server_config, packet, PEER, 2 * MS);
    }
    assert_eq!(receiver.counters().frames_complete, 1);
    assert_eq!(
        sender.take_log(),
        vec![UdpClientEvent::NackHandled { frame_id: 0, requested_chunks: 2 }]
    );
    let stats = sender.stats();
    assert_eq!((stats.nacks_received, stats.nack_chunks_requested), (1, 2));
    assert_eq!((stats.retransmit_packets, stats.retransmit_bytes, stats.retransmit_misses), (2, 15, 0));
}

#[test]
fn requests_that_cannot_be_answered_are_counted() {
    let config = client(&["--frame-size", "10", "--payload-size", "10"]);
    let mut sender = UdpSender::new(&config, 1, 0);
    let nack = |session_id: u64, frame_id: u64, index: u32| {
        let header = UdpVideoPacketHeader {
            packet_type: UDP_PACKET_NACK,
            session_id,
            frame_id,
            chunk_index: 0,
            chunk_count: 1,
            frame_size: 10,
            payload_len: 4,
            sent_unix_us: 0,
        };
        udp_packet(&header, &index.to_be_bytes())
    };
    send_frame(&mut sender, &config, 0);
    sender.take_log();
    assert!(sender.on_control(&nack(2, 0, 0), false).is_empty());
    assert!(sender.on_control(&nack(1, 5, 0), true).is_empty());
    assert!(sender.on_control(&nack(1, 0, 9), false).is_empty());
    assert!(sender.on_control(&[0], false).is_empty());
    assert!(sender.on_control(&video(0, 0, 1), false).is_empty());
    assert_eq!(sender.stats().retransmit_misses, 2);
    assert_eq!(
        sender.take_log(),
        vec![
            UdpClientEvent::StaleNack { frame_id: 0, session_id: 2 },
            UdpClientEvent::NackCacheMiss { frame_id: 5, requested_chunks: 1 },
            UdpClientEvent::BadControlPacket { bytes: 1, error: WireError::PacketTooShort },
        ]
    );
    let receiver = UdpReceiver::new(0);
    sender.on_control(&receiver.status_packet(1, 0), true);
    assert_eq!(sender.stats().statuses_received, 1);
    assert_eq!(sender.stats().status_last_observed_frame_id, u64::MAX);
}

#[test]
fn the_cache_keeps_the_newest_frames() {
    let config = client(&["--frame-size", "1", "--payload-size", "1", "--resend-cache-frames", "2"]);
    let mut sender = UdpSender::new(&config, 1, 0);
    for _ in 0..4 {
        send_frame(&mut sender, &config, 0);
    }
    let answers: Vec<usize> = (0..4)
        .map(|frame_id| {
            let header = UdpVideoPacketHeader {
                packet_type: UDP_PACKET_NACK,
                session_id: 1,
                frame_id,
                chunk_index: 0,
                chunk_count: 1,
                frame_size: 1,
                payload_len: 4,
                sent_unix_us: 0,
            };
            sender.on_control(&udp_packet(&header, &[0; 4]), false).len()
        })
        .collect();
    assert_eq!(answers, [0, 0, 1, 1]);
    sender.prune_udp_sent_cache();
    let config = client(&["--resend-cache-frames", "0"]);
    let mut uncached = UdpSender::new(&config, 1, 0);
    let packets = send_frame(&mut uncached, &config, 0);
    let (header, _) = decode_udp_packet(&packets[1]).unwrap();
    assert_eq!((header.packet_type, header.frame_id), (UDP_PACKET_VIDEO, 0));
}

/// What a sender does, in short, with its clock moved on by each sleep.
fn whole_run(config: &UdpClientConfig<String>) -> Vec<String> {
    let mut sender = UdpSender::new(config, 1, 0);
    let mut now = 0;
    let mut done = Vec::new();
    let name = |packet: &[u8]| {
        let (header, _) = decode_udp_packet(packet).unwrap();
        (header.frame_id, header.chunk_index)
    };
    loop {
        done.push(match sender.step(config, now, 8) {
            UdpAction::Announce(packet) => format!("announce {}", name(&packet).0),
            UdpAction::Video(packet) => format!("video {} {}", name(&packet).0, name(&packet).1),
            UdpAction::Drain => "drain".to_string(),
            UdpAction::Pause { us } => {
                now += us * 1_000;
                format!("pause {us}")
            }
            UdpAction::Sleep { ns } => {
                now += ns;
                format!("sleep {ns}")
            }
            UdpAction::Late => "late".to_string(),
            UdpAction::Bye { index, packet } => format!("bye {index} {}", name(&packet).0),
            UdpAction::Done => return done,
        });
    }
}

#[test]
fn a_udp_run_follows_its_plan() {
    let config = client(&[
        "--duration-sec", "1", "--fps", "2", "--frame-size", "15", "--payload-size", "10", "--pace-every", "1",
        "--pace-us", "200", "--nack-linger-ms", "2",
    ]);
    assert_eq!(
        whole_run(&config),
        [
            "announce 0", "video 0 0", "pause 200", "drain", "video 0 1", "drain", "drain", "sleep 499800000",
            "announce 1", "video 1 0", "pause 200", "drain", "video 1 1", "drain", "drain", "sleep 499800000",
            "drain", "sleep 1000000", "drain", "sleep 1000000", "bye 0 2", "sleep 5000000", "bye 1 2",
            "sleep 5000000", "bye 2 2", "sleep 5000000",
        ]
    );
    let quiet = client(&[
        "--duration-sec", "1", "--fps", "1", "--frame-size", "1", "--no-announce", "--nack-linger-ms", "0",
    ]);
    assert_eq!(
        whole_run(&quiet),
        [
            "video 0 0", "drain", "drain", "sleep 1000000000", "bye 0 1", "sleep 5000000", "bye 1 1",
            "sleep 5000000", "bye 2 1", "sleep 5000000",
        ]
    );
}

#[test]
fn a_udp_sender_reports_its_frames() {
    let config = client(&[
        "--duration-sec", "1", "--fps", "10", "--frame-size", "5", "--no-announce", "--verbose-chunks",
    ]);
    let mut sender = UdpSender::new(&config, 1, 0);
    for now in [1, 2, 3] {
        sender.step(&config, now * MS, 0);
    }
    assert_eq!(sender.step(&config, 401 * MS, 0), UdpAction::Late);
    let log = sender.take_log();
    assert_eq!(
        log,
        vec![
            UdpClientEvent::Frame(FrameEvent::Start { frame_id: 0, chunk_count: 1, frame_size: 5 }),
            UdpClientEvent::Frame(FrameEvent::ChunkSent {
                frame_id: 0,
                chunk_index: 0,
                chunk_count: 1,
                payload_len: 5
            }),
            UdpClientEvent::Frame(FrameEvent::Sent {
                frame_id: 0,
                chunks_sent: 1,
                bytes_sent: 5,
                elapsed_us: 400_000
            }),
            UdpClientEvent::Frame(FrameEvent::Late { frame_id: 1, elapsed_ms: 401 }),
        ]
    );
    assert_eq!(
        udp_client_event_line(1, &log[2]),
        "{\"ts_ms\":1,\"side\":\"udp_client\",\"event\":\"frame_sent\",\"frame_id\":0,\"chunks_sent\":1,\"bytes_sent\":5,\"elapsed_us\":400000}"
    );
    sender.bye_failed();
    assert_eq!(sender.step(&config, 0, 0), UdpAction::Done);
}

#[test]
fn dropped_packets_count_as_never_received() {
    let mut datagrams = Vec::new();
    for frame_id in 0..7 {
        datagrams.push(packet(UDP_PACKET_ANNOUNCE, 1, frame_id, 0, 3));
        for index in 0..3 {
            datagrams.push(video(frame_id, index, 3));
        }
    }
    datagrams.push(packet(UDP_PACKET_BYE, 1, 7, 0, 0));
    assert_eq!(datagrams.len(), 29);
    let report = |config: &UdpServerConfig<String>, skip: usize| {
        let mut receiver = UdpReceiver::new(0);
        let mut last = Verdict::Ignored;
        for (place, datagram) in datagrams.iter().enumerate() {
            if skip != 0 && (place + 1) % skip == 0 {
                continue;
            }
            last = receiver.on_datagram(config, datagram, PEER, place as u64);
            if let Verdict::Service { session_id } = last {
                receiver.after_nacks(config, Some(session_id), place as u64, 0);
            }
        }
        (last, receiver.status_packet(1, 0))
    };
    let dropping = report(&server(&["--nack-rounds", "0", "--drop-every", "5"]), 0);
    let never_received = report(&server(&["--nack-rounds", "0"]), 5);
    assert_eq!(dropping, never_received);
    assert_eq!(dropping.0, Verdict::Finished { report_session: Some(1) });
    let status = decode_udp_status(&dropping.1[47..]).unwrap();
    assert_eq!((status.frames_complete, status.frames_skipped, status.chunks_total), (4, 3, 18));
}

#[test]
fn a_blocked_socket_is_retried_for_half_a_second() {
    assert!(may_retry_send(0, 499 * MS));
    assert!(!may_retry_send(0, 500 * MS));
}

#[test]
fn udp_log_lines_name_their_fields() {
    assert_eq!(
        udp_event_line(1, &UdpEvent::Peer { addr: PEER }, "127.0.0.1:9"),
        "{\"ts_ms\":1,\"side\":\"udp_server\",\"event\":\"peer\",\"addr\":\"127.0.0.1:9\"}"
    );
    assert_eq!(
        udp_event_line(
            1,
            &UdpEvent::FrameOpened { kind: OpenKind::Gap, frame_id: 2, chunk_count: 3, frame_size: 4 },
            ""
        ),
        "{\"ts_ms\":1,\"side\":\"udp_server\",\"event\":\"frame_gap_opened\",\"frame_id\":2,\"chunk_count\":3,\"frame_size\":4}"
    );
    assert_eq!(
        udp_client_event_line(1, &UdpClientEvent::StaleNack { frame_id: 2, session_id: 3 }),
        "{\"ts_ms\":1,\"side\":\"udp_client\",\"event\":\"stale_nack\",\"frame_id\":2,\"session_id\":3}"
    );
    let receiver = UdpReceiver::new(0);
    assert!(udp_summary_fields("bye", &receiver.counters(), 2)
        .starts_with(",\"reason\":\"bye\",\"packets_total\":0,"));
}

#[test]
fn other_frames_are_not_held_up() {
    let config = server(&[]);
    let mut receiver = UdpReceiver::new(0);
    receiver.on_datagram(&config, &video(0, 0, 2), PEER, 0);
    receiver.on_datagram(&config, &video(1, 0, 1), PEER, 0);
    assert_eq!(receiver.counters().frames_complete, 1);
    assert_eq!(receiver.open_frames(), 1);
    receiver.on_datagram(&config, &video(0, 1, 2), PEER, 0);
    assert_eq!(receiver.counters().frames_complete, 2);
}

#[test]
fn announcements_keep_step_with_the_sender() {
    let config = server(&[]);
    let mut receiver = UdpReceiver::new(0);
    receiver.on_datagram(&config, &packet(UDP_PACKET_ANNOUNCE, 1, 0, 0, 2), PEER, 0);
    receiver.on_datagram(&config, &packet(UDP_PACKET_ANNOUNCE, 1, 3, 0, 2), PEER, 0);
    assert_eq!(receiver.open_frames(), 4);
    let report = receiver.status_packet(1, 0);
    assert_eq!(decode_udp_status(&report[47..]).unwrap().last_observed_frame_id, 3);
}

#[test]
fn the_first_packet_set_is_dropped() {
    let header = |packet_type: u8, frame_id: u64, chunk_index: u32| UdpVideoPacketHeader {
        packet_type,
        session_id: 1,
        frame_id,
        chunk_index,
        chunk_count: 3,
        frame_size: 30,
        payload_len: 10,
        sent_unix_us: u64::from(chunk_index),
    };
    let config = server(&["--drop-initial-frame-video-every", "5"]);
    let mut counts = BTreeMap::new();
    let mut dropped = |packet_type, frame_id, index| {
        should_drop_initial_frame_video(&config, &header(packet_type, frame_id, index), &mut counts)
    };
    assert!(!dropped(UDP_PACKET_ANNOUNCE, 5, 0));
    assert!(!dropped(UDP_PACKET_VIDEO, 6, 0));
    let answers: Vec<bool> = [2, 0, 0, 1, 2].iter().map(|index| dropped(UDP_PACKET_VIDEO, 5, *index)).collect();
    assert_eq!(answers, [true, true, true, false, false]);
    assert!(dropped(UDP_PACKET_VIDEO, 0, 0));
    assert_eq!(counts, BTreeMap::from([(0, 1), (5, 3)]));
    assert!(!should_drop_initial_frame_video(&server(&[]), &header(UDP_PACKET_VIDEO, 0, 0), &mut counts));
    assert_eq!(counts.len(), 2);
}
