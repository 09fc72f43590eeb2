use rustadmin_probes::netprobe::config::{
    parse_args, parse_bool, parse_client, parse_server, parse_u32, parse_u64, parse_udp_client, parse_udp_server,
    parse_usize, usage, validate_client_config, validate_udp_client_config, validate_udp_server_config, Command,
    SendMode,
};
use rustadmin_probes::parse::{contains_text, parse_unsigned, split_text, trim, IntError};

fn strings(values: &[&str]) -> Vec<String> {
    values.iter().map(|value| (*value).to_string()).collect()
}

#[test]
fn parses_tcp_pause_options() {
    let args = strings(&[
        "--pause-read-after-ms",
        "3000",
        "--pause-read-duration-ms",
        "12000",
        "--pause-read-repeat-ms",
        "60000",
    ]);
    let config = parse_server(&args).unwrap();
    assert_eq!(config.pause_read_after_ms, 3000);
    assert_eq!(config.pause_read_duration_ms, 12000);
    assert_eq!(config.pause_read_repeat_ms, 60000);
}

#[test]
fn parses_tcp_window_drop_options() {
    let args = strings(&[
        "--connect",
        "127.0.0.1:23000",
        "--mode",
        "window",
        "--window-bytes",
        "262144",
        "--window-wait-ms",
        "0",
        "--drop-when-window-full",
    ]);
    let config = parse_client(&args).unwrap();
    assert_eq!(config.mode, SendMode::Window);
    assert_eq!(config.window_bytes, 262_144);
    assert_eq!(config.window_wait_ms, 0);
    assert!(config.drop_when_window_full);
    validate_client_config(&config).unwrap();
}

#[test]
fn window_drop_requires_full_frame_capacity() {
    let args = strings(&[
        "--connect",
        "127.0.0.1:23000",
        "--mode",
        "window",
        "--frame-size",
        "43090",
        "--window-bytes",
        "4096",
        "--drop-when-window-full",
    ]);
    let config = parse_client(&args).unwrap();
    assert!(validate_client_config(&config).is_err());
}

#[test]
fn defaults_hold_without_options() {
    let server = parse_server(&[]).unwrap();
    assert_eq!(server.bind, "0.0.0.0:23000");
    assert_eq!(server.log_path, None);
    assert_eq!(server.read_timeout_ms, 30_000);
    assert!(server.tcp_nodelay);
    let udp = parse_udp_server(&[]).unwrap();
    assert_eq!(udp.nack_rounds, 8);
    assert_eq!(udp.status_interval_ms, 500);
    validate_udp_server_config(&udp).unwrap();
    let client = parse_udp_client(&strings(&["--connect", "h:1"])).unwrap();
    assert_eq!(client.connect, "h:1");
    assert_eq!(client.frame_size, 43 * 1024);
    assert_eq!(client.resend_cache_frames, 180);
    assert!(client.announce_frames);
    validate_udp_client_config(&client).unwrap();
}

#[test]
fn every_option_is_read() {
    let server = parse_server(&strings(&[
        "--bind", "b", "--log", "l", "--ack-every-chunks", "+4", "--read-timeout-ms", "5", "--verbose-chunks",
        "--tcp-nodelay", "off",
    ]))
    .unwrap();
    assert_eq!(server.bind, "b");
    assert_eq!(server.log_path.as_deref(), Some("l"));
    assert_eq!(server.ack_every_chunks, 4);
    assert_eq!(server.read_timeout_ms, 5);
    assert!(server.verbose_chunks);
    assert!(!server.tcp_nodelay);
    let client = parse_client(&strings(&[
        "--connect", "c", "--log", "l", "--duration-sec", "1", "--fps", "2", "--frame-size", "3", "--chunk-size",
        "4", "--mode", "paced", "--pace-every", "5", "--pace-us", "6", "--io-timeout-ms", "7", "--verbose-chunks",
        "--tcp-nodelay", "no",
    ]))
    .unwrap();
    assert_eq!(client.connect, "c");
    assert_eq!((client.duration_sec, client.fps, client.frame_size, client.chunk_size), (1, 2, 3, 4));
    assert_eq!((client.pace_every, client.pace_us, client.io_timeout_ms), (5, 6, 7));
    assert_eq!(client.mode, SendMode::Paced);
    let udp = parse_udp_server(&strings(&[
        "--drop-every", "1", "--drop-initial-frame-video-every", "2", "--quiet-frames", "--nack-delay-ms", "3",
        "--nack-interval-ms", "4", "--nack-rounds", "5", "--nack-max-chunks", "6", "--nack-empty-frames",
        "--status-interval-ms", "7", "--frame-timeout-ms", "8",
    ]))
    .unwrap();
    assert_eq!((udp.drop_every, udp.drop_initial_frame_video_every, udp.nack_delay_ms), (1, 2, 3));
    assert_eq!((udp.nack_interval_ms, udp.nack_rounds, udp.nack_max_chunks), (4, 5, 6));
    assert_eq!((udp.status_interval_ms, udp.frame_timeout_ms), (7, 8));
    assert!(udp.quiet_frames && udp.nack_empty_frames);
    let sender = parse_udp_client(&strings(&[
        "--connect", "c", "--bind", "b", "--payload-size", "9", "--resend-cache-frames", "10", "--nack-linger-ms",
        "11", "--no-announce",
    ]))
    .unwrap();
    assert_eq!((sender.payload_size, sender.resend_cache_frames, sender.nack_linger_ms), (9, 10, 11));
    assert!(!sender.announce_frames);
}

#[test]
fn command_line_errors_say_what_is_wrong() {
    assert_eq!(parse_server(&strings(&["--bind"])).unwrap_err(), "--bind requires a value");
    assert_eq!(parse_server(&strings(&["--x"])).unwrap_err(), "unknown server option '--x'");
    assert_eq!(parse_client(&[]).unwrap_err(), "--connect is required for client mode");
    assert_eq!(
        parse_udp_client(&[]).unwrap_err(),
        "--connect is required for udp-client mode"
    );
    assert_eq!(
        parse_server(&strings(&["--read-timeout-ms", "x"])).unwrap_err(),
        "invalid integer 'x': invalid digit found in string"
    );
    assert_eq!(
        parse_client(&strings(&["--mode", "fast"])).unwrap_err(),
        "unknown mode 'fast', expected burst, paced, or window"
    );
    assert_eq!(parse_bool("maybe").unwrap_err(), "invalid boolean 'maybe'");
    assert_eq!(parse_udp_server(&strings(&["-h"])).unwrap_err(), usage());
}

#[test]
fn commands_are_told_apart() {
    assert_eq!(parse_args(&[]).unwrap_err(), usage());
    assert_eq!(parse_args(&strings(&["--help"])).unwrap_err(), usage());
    assert_eq!(
        parse_args(&strings(&["dance"])).unwrap_err(),
        format!("unknown command 'dance'\n\n{}", usage())
    );
    assert!(matches!(parse_args(&strings(&["server"])), Ok(Command::Server(_))));
    assert!(matches!(parse_args(&strings(&["udp-server", "--quiet-frames"])), Ok(Command::UdpServer(_))));
    assert!(matches!(parse_args(&strings(&["client", "--connect", "a"])), Ok(Command::Client(_))));
    assert!(matches!(parse_args(&strings(&["udp-client", "--connect", "a"])), Ok(Command::UdpClient(_))));
    assert!(usage().starts_with("usage:\n  rustadmin-netprobe server"));
}

#[test]
fn validity_rules_name_the_option() {
    let base = ["--connect", "a"];
    let with = |more: &[&str]| {
        let mut all = base.to_vec();
        all.extend_from_slice(more);
        validate_client_config(&parse_client(&strings(&all)).unwrap())
    };
    assert_eq!(with(&["--fps", "0"]).unwrap_err(), "--fps must be greater than zero");
    assert_eq!(with(&["--frame-size", "0"]).unwrap_err(), "--frame-size must be greater than zero");
    assert_eq!(with(&["--chunk-size", "0"]).unwrap_err(), "--chunk-size must be greater than zero");
    assert_eq!(with(&["--chunk-size", "16777184"]).unwrap_err(), "--chunk-size is too large");
    assert!(with(&["--chunk-size", "16777183"]).is_ok());
    assert!(with(&["--mode", "window", "--window-bytes", "1023"]).is_err());
    assert_eq!(
        with(&["--drop-when-window-full"]).unwrap_err(),
        "--drop-when-window-full requires --mode window"
    );
    let udp = |more: &[&str]| validate_udp_server_config(&parse_udp_server(&strings(more)).unwrap());
    assert!(udp(&["--frame-timeout-ms", "0"]).is_err());
    assert!(udp(&["--nack-interval-ms", "0"]).is_err());
    assert!(udp(&["--nack-max-chunks", "0"]).is_err());
    assert!(udp(&["--nack-max-chunks", "16365"]).is_ok());
    assert_eq!(
        udp(&["--nack-max-chunks", "16366"]).unwrap_err(),
        "--nack-max-chunks is too large for one UDP packet"
    );
    let sender = |more: &[&str]| {
        let mut all = base.to_vec();
        all.extend_from_slice(more);
        validate_udp_client_config(&parse_udp_client(&strings(&all)).unwrap())
    };
    assert!(sender(&["--payload-size", "65460"]).is_ok());
    assert_eq!(
        sender(&["--payload-size", "65461"]).unwrap_err(),
        "--payload-size is too large for one UDP packet"
    );
    assert!(sender(&["--payload-size", "0"]).is_err());
    assert!(sender(&["--fps", "0"]).is_err());
    assert!(sender(&["--frame-size", "0"]).is_err());
}

#[test]
fn integers_parse_as_in_the_standard_library() {
    let texts = [
        "", "+", "-", "0", "007", "+5", "-5", "1x", "x1", "4294967295", "4294967296", "18446744073709551615",
        "18446744073709551616", "99999999999999999999x", " 1", "1 ", "\u{661}",
    ];
    for text in texts {
        match (text.parse::<u32>(), parse_u32(text)) {
            (Ok(expected), Ok(found)) => assert_eq!(expected, found),
            (Err(expected), Err(found)) => {
                assert_eq!(found, format!("invalid integer '{text}': {expected}"))
            }
            _ => panic!("{text}"),
        }
        match (text.parse::<u64>(), parse_u64(text)) {
            (Ok(expected), Ok(found)) => assert_eq!(expected, found),
            (Err(expected), Err(found)) => {
                assert_eq!(found, format!("invalid integer '{text}': {expected}"))
            }
            _ => panic!("{text}"),
        }
        assert_eq!(text.parse::<usize>().ok(), parse_usize(text).ok());
    }
    assert_eq!(parse_unsigned("", 9), Err(IntError::Empty));
    assert_eq!(parse_unsigned("10", 9), Err(IntError::Overflow));
    assert_eq!(parse_unsigned("a", 9), Err(IntError::InvalidDigit));
}

#[test]
fn words_split_and_trim_as_in_the_standard_library() {
    for text in ["", ",", "a,b", ",a,,b,", "abc", "ä,ö"] {
        let expected: Vec<&str> = text.split(',').collect();
        assert_eq!(split_text(text, ','), expected);
    }
    for text in ["", " a ", "\t\u{a0}x y\u{2003}\n", "   ", "\u{200b}z"] {
        assert_eq!(trim(text), text.trim());
    }
    for (text, part) in [("h264_nvenc", "h264"), ("abc", ""), ("abc", "cd"), ("", "a"), ("aab", "ab")] {
        assert_eq!(contains_text(text, part), text.contains(part));
    }
}

#[test]
fn mode_names_and_bytes_agree() {
    for mode in [SendMode::Burst, SendMode::Paced, SendMode::Window] {
        assert_eq!(SendMode::parse(mode.as_str()), Ok(mode));
        assert_eq!(SendMode::from_wire(mode.wire()), mode.as_str());
    }
    assert_eq!(SendMode::from_wire(3), "unknown");
}
