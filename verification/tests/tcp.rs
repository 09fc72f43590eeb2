use rustadmin_probes::netprobe::clock::{elapsed_at_least, elapsed_us, saturating_mul};
use rustadmin_probes::netprobe::config::{parse_client, parse_server, ClientConfig, SendMode, ServerConfig};
use rustadmin_probes::netprobe::log::{
    accept_fields, bye_error_fields, client_event_line, event_line, frame_ack_fields, message_fields,
    server_event_line, server_listen_fields, unexpected_fields,
};
use rustadmin_probes::netprobe::tcp_client::{
    ack_step, frame_count_target, frame_period_ns, hello_message, maybe_pace, maybe_pace_udp, AckStep, FlowState,
    FrameEvent, FrameSchedule, Reservation, TcpAction, TcpEvent, TcpSender,
};
use rustadmin_probes::netprobe::tcp_server::{PauseSchedule, ReadEnd, ServerEvent, TcpReceiver};
use rustadmin_probes::netprobe::wire::{
    read_wire_message, write_bye, write_chunk, write_hello, ChunkMsg, FrameAckMsg, HelloMsg, WireMessage,
};

fn strings(values: &[&str]) -> Vec<String> {
    values.iter().map(|value| (*value).to_string()).collect()
}

fn server(options: &[&str]) -> ServerConfig<String> {
    parse_server(&strings(options)).unwrap()
}

fn client(options: &[&str]) -> ClientConfig<String> {
    let mut all = vec!["--connect", "host:1"];
    all.extend_from_slice(options);
    parse_client(&strings(&all)).unwrap()
}

fn chunk(frame_id: u64, chunk_index: u32, chunk_count: u32) -> WireMessage {
    WireMessage::Chunk(ChunkMsg {
        frame_id,
        chunk_index,
        chunk_count,
        frame_size: 100 * chunk_count,
        sent_unix_us: 50,
        payload_len: 100,
    })
}

fn ack(frame_id: u64, bytes_seen: u32, complete: bool) -> FrameAckMsg {
    FrameAckMsg {
        frame_id,
        chunks_seen: 1,
        chunk_count: 2,
        frame_size: 200,
        bytes_seen,
        complete_unix_us: 0,
        receive_elapsed_us: 0,
        complete,
    }
}

#[test]
fn a_complete_frame_is_acknowledged_and_forgotten() {
    let config = server(&[]);
    let mut receiver = TcpReceiver::new();
    let first = receiver.on_message(&config, &chunk(3, 1, 2), 1_000_000, 10);
    assert_eq!(first.ack, None);
    let last = receiver.on_message(&config, &chunk(3, 0, 2), 6_000_000, 20);
    assert_eq!(
        last.ack,
        Some(FrameAckMsg {
            frame_id: 3,
            chunks_seen: 2,
            chunk_count: 2,
            frame_size: 200,
            bytes_seen: 200,
            complete_unix_us: 20,
            receive_elapsed_us: 5_000,
            complete: true,
        })
    );
    assert!(!last.done);
    assert_eq!(
        receiver.take_log(),
        vec![
            ServerEvent::FrameRxStart { frame_id: 3, chunk_count: 2, frame_size: 200, first_chunk_index: 1 },
            ServerEvent::FrameComplete {
                frame_id: 3,
                chunks_seen: 2,
                chunk_count: 2,
                bytes_seen: 200,
                sender_first_unix_us: 50,
                elapsed_us: 5_000,
            },
        ]
    );
    let bye = receiver.on_message(&config, &WireMessage::Bye, 7_000_000, 30);
    assert!(bye.done);
    assert_eq!(
        receiver.take_log(),
        vec![ServerEvent::Bye { chunks_total: 2, bytes_total: 200, open_frames: 0 }]
    );
}

#[test]
fn partial_acknowledgements_come_every_so_many_chunks() {
    let config = server(&["--ack-every-chunks", "2", "--verbose-chunks"]);
    let mut receiver = TcpReceiver::new();
    assert_eq!(receiver.on_message(&config, &chunk(1, 0, 4), 0, 0).ack, None);
    let second = receiver.on_message(&config, &chunk(1, 1, 4), 0, 0).ack.unwrap();
    assert!(!second.complete);
    assert_eq!(second.chunks_seen, 2);
    let again = receiver.on_message(&config, &chunk(1, 1, 4), 0, 0).ack.unwrap();
    assert_eq!(again.chunks_seen, 2);
    let log = receiver.take_log();
    assert!(log.contains(&ServerEvent::DuplicateChunk { frame_id: 1, chunk_index: 1 }));
    assert!(log.contains(&ServerEvent::Chunk { frame_id: 1, chunk_index: 0, chunk_count: 4, payload_len: 100 }));
}

#[test]
fn bad_and_mismatched_chunks_are_reported() {
    let config = server(&[]);
    let mut receiver = TcpReceiver::new();
    receiver.on_message(&config, &chunk(1, 0, 0), 0, 0);
    receiver.on_message(&config, &chunk(1, 2, 2), 0, 0);
    receiver.on_message(&config, &chunk(1, 0, 3), 0, 0);
    receiver.on_message(&config, &chunk(1, 0, 2), 0, 0);
    receiver.on_message(&config, &WireMessage::FrameAck(ack(1, 1, true)), 0, 0);
    receiver.on_read_end(ReadEnd::Eof, 9_000);
    assert_eq!(
        receiver.take_log(),
        vec![
            ServerEvent::BadChunk { frame_id: 1, chunk_index: 0, chunk_count: 0 },
            ServerEvent::BadChunk { frame_id: 1, chunk_index: 2, chunk_count: 2 },
            ServerEvent::FrameRxStart { frame_id: 1, chunk_count: 3, frame_size: 300, first_chunk_index: 0 },
            ServerEvent::FrameMismatch {
                frame_id: 1,
                expected_chunks: 3,
                got_chunks: 2,
                expected_size: 300,
                got_size: 200,
            },
            ServerEvent::UnexpectedAck,
            ServerEvent::ReadEnded { end: ReadEnd::Eof, chunks_total: 2, bytes_total: 200, open_frames: 1 },
            ServerEvent::OpenFrame {
                reason: ReadEnd::Eof,
                frame_id: 1,
                chunks_seen: 1,
                chunk_count: 3,
                bytes_seen: 100,
                frame_size: 300,
                elapsed_us: 9,
            },
        ]
    );
}

#[test]
fn totals_have_room_for_ordinary_messages() {
    let receiver = TcpReceiver::new();
    assert!(receiver.has_room(&chunk(1, 0, 1)));
    assert!(receiver.has_room(&WireMessage::Bye));
}

#[test]
fn pauses_follow_their_schedule() {
    let config = server(&[
        "--pause-read-after-ms", "100", "--pause-read-duration-ms", "10", "--pause-read-repeat-ms", "50",
    ]);
    let mut pauses = PauseSchedule::new(&config);
    assert!(!pauses.due(99));
    assert!(pauses.due(100));
    pauses.paused(&config, 110);
    assert_eq!(pauses.next_after_ms, Some(150));
    pauses.paused(&config, 260);
    assert_eq!(pauses.next_after_ms, Some(300));
    assert_eq!(pauses.taken, 2);
    let once = server(&["--pause-read-duration-ms", "10"]);
    let mut pauses = PauseSchedule::new(&once);
    assert!(pauses.due(0));
    pauses.paused(&once, 10);
    assert_eq!(pauses.next_after_ms, None);
    assert!(!pauses.due(u64::MAX));
    assert!(!PauseSchedule::new(&server(&[])).due(1_000));
}

#[test]
fn the_window_is_kept() {
    let config = client(&["--mode", "window", "--window-bytes", "2000", "--window-wait-ms", "1000"]);
    let mut flow = FlowState::new();
    assert_eq!(flow.reserve_window_capacity(&config, 2000, false, 0, false), Reservation::Granted);
    assert_eq!(flow.inflight_bytes, 2000);
    assert_eq!(
        flow.reserve_window(&config, 1, 0, false),
        Reservation::Wait { nanos: 200_000_000 }
    );
    assert_eq!(
        flow.reserve_window(&config, 1, 900_000_000, true),
        Reservation::Wait { nanos: 100_000_000 }
    );
    assert_eq!(flow.reserve_window(&config, 1, 1_000_000_000, false), Reservation::TimedOut);
    assert_eq!(
        flow.reserve_window_capacity(&config, 1, true, 1_000_000_000, true),
        Reservation::Dropped
    );
    assert_eq!(flow.on_ack(&ack(1, 500, false)), 500);
    assert_eq!(flow.reserve_window(&config, 500, 0, false), Reservation::Granted);
    assert_eq!(flow.inflight_bytes, 2000);
}

#[test]
fn a_full_window_skips_or_waits() {
    let config = client(&["--mode", "window", "--window-bytes", "1024", "--window-wait-ms", "0"]);
    let mut flow = FlowState::new();
    assert_eq!(flow.reserve_window(&config, 1024, 0, false), Reservation::Granted);
    assert_eq!(flow.reserve_window_capacity(&config, 1, true, 0, false), Reservation::Dropped);
    assert_eq!(
        flow.reserve_window_capacity(&config, 1, false, u64::MAX, true),
        Reservation::Wait { nanos: 200_000_000 }
    );
    let burst = client(&[]);
    assert_eq!(flow.reserve_window_capacity(&burst, u64::MAX, false, 0, false), Reservation::Granted);
    assert_eq!(flow.inflight_bytes, 1024);
}

#[test]
fn bytes_are_acknowledged_once() {
    let mut flow = FlowState::new();
    flow.inflight_bytes = 250;
    assert_eq!(flow.on_ack(&ack(7, 100, false)), 100);
    assert_eq!(flow.on_ack(&ack(7, 100, false)), 0);
    assert_eq!(flow.on_ack(&ack(7, 60, false)), 0);
    assert_eq!(flow.on_ack(&ack(7, 200, true)), 100);
    assert_eq!((flow.inflight_bytes, flow.acked_frames, flow.acked_bytes), (50, 1, 200));
    assert!(flow.acked_frame_bytes.is_empty());
    assert_eq!(flow.on_ack(&ack(8, 100, true)), 100);
    assert_eq!(flow.inflight_bytes, 0);
}

#[test]
fn server_messages_are_told_apart() {
    let reply = ack(1, 2, false);
    assert_eq!(ack_step(Some(WireMessage::FrameAck(reply))), AckStep::Acknowledge(reply));
    assert_eq!(ack_step(Some(WireMessage::Bye)), AckStep::Ended);
    assert_eq!(ack_step(None), AckStep::Ended);
    assert_eq!(ack_step(Some(chunk(1, 0, 1))), AckStep::Unexpected(chunk(1, 0, 1)));
}

#[test]
fn frames_are_planned() {
    assert_eq!(frame_count_target(20, 30), 600);
    assert_eq!(frame_count_target(u64::MAX, 2), u64::MAX);
    assert_eq!(frame_period_ns(30), 33_333_333);
    let config = client(&["--duration-sec", "1", "--fps", "2", "--frame-size", "2500", "--chunk-size", "1000"]);
    let sender = TcpSender::new();
    let last = sender.chunk(&config, 2, 77);
    assert_eq!(
        last.chunk,
        ChunkMsg {
            frame_id: 0,
            chunk_index: 2,
            chunk_count: 3,
            frame_size: 2500,
            sent_unix_us: 77,
            payload_len: 500,
        }
    );
    assert_eq!(&last.payload[..3], &[2, 3, 4]);
    assert_eq!(last.payload.len(), 500);
    let hello = hello_message(&client(&["--duration-sec", "5000000000", "--mode", "window"]));
    assert_eq!(
        hello,
        HelloMsg {
            chunk_size: 1024,
            frame_size: 44_032,
            fps: 30,
            duration_sec: u32::MAX,
            window_bytes: 262_144,
            mode: SendMode::Window.wire(),
        }
    );
}

#[test]
fn pacing_pauses_between_chunks() {
    let paced = client(&["--mode", "paced", "--pace-every", "4", "--pace-us", "1000"]);
    assert_eq!(maybe_pace(&paced, 4, 10), Some(1000));
    assert_eq!(maybe_pace(&paced, 5, 10), None);
    assert_eq!(maybe_pace(&paced, 8, 8), None);
    assert_eq!(maybe_pace(&client(&[]), 4, 10), None);
    assert_eq!(maybe_pace_udp(0, 5, 4, 10), None);
    assert_eq!(maybe_pace_udp(1, 0, 4, 10), None);
    assert_eq!(maybe_pace_udp(2, 200, 4, 10), Some(200));
}

#[test]
fn late_frames_start_the_schedule_anew() {
    let mut schedule = FrameSchedule { next: 100 };
    assert_eq!(schedule.advance(50, 120), Some(30));
    assert_eq!(schedule.advance(50, 200), Some(0));
    assert_eq!(schedule.advance(50, 251), None);
    assert_eq!(schedule.next, 251);
    let mut last = FrameSchedule { next: u64::MAX - 1 };
    assert_eq!(last.advance(50, u64::MAX - 3), Some(3));
}

/// What a sender does, in short, with its clock moved on by each sleep, the
/// frames of `full` dropped, and its totals.
fn whole_run(config: &ClientConfig<String>, full: &[u64]) -> (Vec<String>, [u64; 4]) {
    let mut sender = TcpSender::new();
    let mut now = 7;
    let mut event = TcpEvent::Written;
    let mut done = Vec::new();
    loop {
        assert!(sender.has_room());
        let action = sender.step(config, event, now, 9);
        event = TcpEvent::Written;
        done.push(match action {
            TcpAction::Hello(hello) => {
                assert_eq!(hello, hello_message(config));
                "hello".to_string()
            }
            TcpAction::ReserveFrame { bytes } => {
                event = if full.contains(&sender.frames_sent) { TcpEvent::Dropped } else { TcpEvent::Granted };
                format!("reserve frame {bytes}")
            }
            TcpAction::ReserveChunk { bytes } => {
                event = TcpEvent::Granted;
                format!("reserve {bytes}")
            }
            TcpAction::Write(out) => {
                assert_eq!(out.payload.len(), out.chunk.payload_len as usize);
                format!("chunk {} {}", out.chunk.frame_id, out.chunk.chunk_index)
            }
            TcpAction::Skip => "skip".to_string(),
            TcpAction::Pause { us } => {
                now += us * 1_000;
                format!("pause {us}")
            }
            TcpAction::Sleep { ns } => {
                now += ns;
                format!("sleep {ns}")
            }
            TcpAction::Late => "late".to_string(),
            TcpAction::Bye => "bye".to_string(),
            TcpAction::Done => {
                let totals = [sender.frames_sent, sender.frames_skipped, sender.chunks_sent, sender.bytes_sent];
                return (done, totals);
            }
        });
    }
}

#[test]
fn a_tcp_run_writes_whole_frames() {
    let paced = client(&[
        "--duration-sec", "1", "--fps", "2", "--frame-size", "5", "--chunk-size", "3", "--mode", "paced",
        "--pace-every", "1", "--pace-us", "10",
    ]);
    assert_eq!(
        whole_run(&paced, &[]),
        (
            strings(&[
                "hello", "reserve 3", "chunk 0 0", "pause 10", "reserve 2", "chunk 0 1", "sleep 499990000",
                "reserve 3", "chunk 1 0", "pause 10", "reserve 2", "chunk 1 1", "sleep 499990000", "bye",
            ]),
            [2, 0, 4, 10]
        )
    );
    let dropping = client(&[
        "--duration-sec", "1", "--fps", "3", "--frame-size", "5", "--chunk-size", "3", "--mode", "window",
        "--window-bytes", "5", "--drop-when-window-full",
    ]);
    assert_eq!(
        whole_run(&dropping, &[1]),
        (
            strings(&[
                "hello", "reserve frame 5", "chunk 0 0", "chunk 0 1", "sleep 333333333", "reserve frame 5", "skip",
                "sleep 333333333", "reserve frame 5", "chunk 2 0", "chunk 2 1", "sleep 333333333", "bye",
            ]),
            [3, 1, 4, 10]
        )
    );
}

#[test]
fn a_tcp_sender_reports_its_frames() {
    let config = client(&[
        "--duration-sec", "1", "--fps", "10", "--frame-size", "5", "--mode", "window", "--window-bytes", "5",
        "--drop-when-window-full", "--verbose-chunks",
    ]);
    let ms = 1_000_000;
    let mut sender = TcpSender::new();
    sender.step(&config, TcpEvent::Written, 0, 0);
    sender.step(&config, TcpEvent::Written, ms, 0);
    sender.step(&config, TcpEvent::Granted, 2 * ms, 0);
    sender.step(&config, TcpEvent::Written, 402 * ms, 0);
    sender.step(&config, TcpEvent::Written, 402 * ms, 0);
    sender.step(&config, TcpEvent::Dropped, 402 * ms, 0);
    let log = sender.take_log();
    assert_eq!(
        log,
        vec![
            FrameEvent::Start { frame_id: 0, chunk_count: 1, frame_size: 5 },
            FrameEvent::ChunkSent { frame_id: 0, chunk_index: 0, chunk_count: 1, payload_len: 5 },
            FrameEvent::Sent { frame_id: 0, chunks_sent: 1, bytes_sent: 5, elapsed_us: 401_000 },
            FrameEvent::Late { frame_id: 1, elapsed_ms: 401 },
            FrameEvent::Skipped { frame_id: 1, frame_size: 5, window_bytes: 5, window_wait_ms: 10_000 },
        ]
    );
    assert_eq!(
        client_event_line(2, &log[4]),
        "{\"ts_ms\":2,\"side\":\"client\",\"event\":\"frame_skipped_window_full\",\"frame_id\":1,\"frame_size\":5,\"window_bytes\":5,\"window_wait_ms\":10000}"
    );
}

#[test]
fn clock_arithmetic_is_exact() {
    assert!(elapsed_at_least(5, 1_000_005, 1));
    assert!(!elapsed_at_least(6, 1_000_005, 1));
    assert!(elapsed_at_least(10, 5, 0));
    assert!(!elapsed_at_least(0, u64::MAX, u64::MAX));
    assert_eq!(elapsed_us(0, 1_999), 1);
    assert_eq!(elapsed_us(10, 5), 0);
    assert_eq!(saturating_mul(u64::MAX, 2), u64::MAX);
}

#[test]
fn log_lines_are_json() {
    let line = server_event_line(
        12,
        &ServerEvent::Hello(HelloMsg {
            chunk_size: 1,
            frame_size: 2,
            fps: 3,
            duration_sec: 4,
            window_bytes: 5,
            mode: 1,
        }),
        "",
    );
    assert_eq!(
        line,
        "{\"ts_ms\":12,\"side\":\"server\",\"event\":\"hello\",\"mode\":\"paced\",\"chunk_size\":1,\"frame_size\":2,\"fps\":3,\"duration_sec\":4,\"window_bytes\":5}"
    );
    let line = server_event_line(
        1,
        &ServerEvent::ReadEnded { end: ReadEnd::ReadError, chunks_total: 3, bytes_total: 4, open_frames: 5 },
        "a \"b\"\n",
    );
    assert_eq!(
        line,
        "{\"ts_ms\":1,\"side\":\"server\",\"event\":\"read_error\",\"message\":\"a \\\"b\\\"\\n\",\"chunks_total\":3,\"bytes_total\":4,\"open_frames\":5}"
    );
    let parsed: serde_json::Value = serde_json::from_str(&line).unwrap();
    assert_eq!(parsed["message"], "a \"b\"\n");
    assert_eq!(
        event_line(2, "client", "ack_error", &message_fields("x")),
        "{\"ts_ms\":2,\"side\":\"client\",\"event\":\"ack_error\",\"message\":\"x\"}"
    );
    assert_eq!(
        server_listen_fields(&server(&[])),
        ",\"bind\":\"0.0.0.0:23000\",\"ack_every_chunks\":0,\"pause_read_after_ms\":0,\"pause_read_duration_ms\":0,\"pause_read_repeat_ms\":0,\"tcp_nodelay\":true"
    );
    assert_eq!(accept_fields("a\"b", 7), ",\"peer\":\"a\\\"b\",\"read_timeout_ms\":7");
    assert_eq!(
        frame_ack_fields(&ack(1, 2, true), 3, 4, 5, 6),
        ",\"frame_id\":1,\"complete\":true,\"chunks_seen\":1,\"chunk_count\":2,\"frame_size\":200,\"bytes_seen\":2,\"newly_acked_bytes\":3,\"inflight_bytes\":4,\"acked_frames\":5,\"acked_bytes\":6,\"receive_elapsed_us\":0"
    );
}

#[test]
fn an_arrived_frame_frees_its_window() {
    let sending = client(&[
        "--mode", "window", "--frame-size", "2500", "--chunk-size", "1000", "--window-bytes", "4000",
    ]);
    let receiving = server(&["--ack-every-chunks", "1"]);
    let sender = TcpSender::new();
    let mut receiver = TcpReceiver::new();
    let mut flow = FlowState::new();
    flow.inflight_bytes = 700;
    assert_eq!(flow.reserve_window_capacity(&sending, 2500, true, 0, false), Reservation::Granted);
    let mut acks = 0;
    for index in 0..3 {
        let out = sender.chunk(&sending, index, 9);
        let reply = receiver.on_message(&receiving, &WireMessage::Chunk(out.chunk), 0, 9);
        if let Some(ack) = reply.ack {
            flow.on_ack(&ack);
            acks += 1;
        }
    }
    assert_eq!(acks, 3);
    assert_eq!((flow.inflight_bytes, flow.acked_bytes, flow.acked_frames), (700, 2500, 1));
    assert!(flow.acked_frame_bytes.is_empty());
}

#[test]
fn a_stream_is_read_in_its_order() {
    let sending = client(&["--frame-size", "5", "--chunk-size", "3"]);
    let sender = TcpSender::new();
    let mut stream = Vec::new();
    write_hello(&mut stream, &hello_message(&sending)).unwrap();
    for index in 0..2 {
        let out = sender.chunk(&sending, index, 9);
        write_chunk(&mut stream, &out.chunk, &out.payload).unwrap();
    }
    write_bye(&mut stream).unwrap();
    let mut position = 0;
    let mut kinds = Vec::new();
    while let Some(message) = read_wire_message(&stream, &mut position).unwrap() {
        kinds.push(match message {
            WireMessage::Hello(_) => "hello".to_string(),
            WireMessage::Chunk(chunk) => format!("chunk {}", chunk.chunk_index),
            WireMessage::FrameAck(_) => "ack".to_string(),
            WireMessage::Bye => "bye".to_string(),
        });
    }
    assert_eq!(kinds, ["hello", "chunk 0", "chunk 1", "bye"]);
    assert_eq!(position, stream.len());
}

#[test]
fn log_texts_are_escaped() {
    let message = chunk(1, 0, 2);
    assert_eq!(unexpected_fields(&message), format!(",\"message\":\"{message:?}\""));
    assert_eq!(unexpected_fields(&WireMessage::Bye), ",\"message\":\"Bye\"");
    let hello = WireMessage::Hello(hello_message(&client(&[])));
    assert_eq!(unexpected_fields(&hello), format!(",\"message\":\"{hello:?}\""));
    let reply = WireMessage::FrameAck(ack(1, 2, true));
    assert_eq!(unexpected_fields(&reply), format!(",\"message\":\"{reply:?}\""));
    for text in ["plain", "\u{0}\u{1f}\"\\\n\r\t", "ä\u{85}"] {
        let line = event_line(1, "client", "fatal", &message_fields(text));
        let parsed: serde_json::Value = serde_json::from_str(&line).unwrap();
        assert_eq!(parsed["message"], text);
        let line = event_line(1, "udp_client", "bye_send_error", &bye_error_fields(2, text));
        let parsed: serde_json::Value = serde_json::from_str(&line).unwrap();
        assert_eq!(parsed["error"], text);
    }
}
