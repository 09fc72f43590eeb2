use rustadmin_probes::debugprobe::{
    command_output, dump_result_json, file_latency_json, is_rustadmin_pipe, is_rustadmin_process, keeps_sampling, lists_process,
    newest_files, parse_debug_options, process_list_json, string_array_json, summary_text, window_list_json,
    DumpResult, EventField, EventLog, FileLatency, ProcessInfo, WindowInfo,
};
use rustadmin_probes::dxgi::{
    acquire_result, created_fields, display_line, display_unavailable, frame_fields, hash_bgra_rows, hresult_fields, hresult_to_io,
    hresult_to_probe, io_error_fields, is_pointer_only, json_error, mapped_len, parse_dxgi_options, pointer_fields,
    save_bgra_bmp, snapshot_fields, snapshot_stride, start_fields, summary_fields, timeout_fields, CaptureFailure,
    DisplayRect, FrameInfo, Mode, ProbeLog, ProbeTally, WakeMode, DXGI_ERROR_ACCESS_LOST, DXGI_ERROR_WAIT_TIMEOUT,
};
use rustadmin_probes::safety::{
    allocation_reproduced, argument_or, case_passes, encode_head_only, exit_code, expansion_reproduced, link_case,
    normal_reproduced, path_cases, peer_names, service_reproduced, shared_across_users, symlink_reproduced,
    ServicePaths,
};
use rustadmin_probes::text::{
    decimal_text, escape_json, json_escape, json_string, push_hex16, push_hex8, push_signed, push_upper_hex, text_eq,
};
use rustadmin_probes::wide::{wide_null, wide_text, wide_to_string};

fn strings(values: &[&str]) -> Vec<String> {
    values.iter().map(|value| (*value).to_string()).collect()
}

#[test]
fn texts_are_escaped() {
    assert_eq!(json_escape("a\\\"\n\r\t\u{1}ä"), "a\\\\\\\"\\n\\r\\t\\u0001ä");
    assert_eq!(json_escape("\u{7f}\u{9f}"), "\u{7f}\u{9f}");
    assert_eq!(escape_json("\u{1}\u{7f}\u{9f}\u{a0}"), "\\u0001\\u007f\\u009f\u{a0}");
    assert_eq!(json_string("x\"y"), "\"x\\\"y\"");
    for text in ["", "plain", "\u{0}\u{1f}\"\\\n\r\t", "ä€😀\u{85}"] {
        let parsed: String = serde_json::from_str(&json_string(text)).unwrap();
        assert_eq!(parsed, text);
    }
    assert!(text_eq("ä", "ä"));
    assert!(!text_eq("a", "b"));
    assert!(!text_eq("a", "ab"));
}

#[test]
fn numbers_are_written() {
    assert_eq!(decimal_text(0), "0");
    assert_eq!(decimal_text(u128::MAX), u128::MAX.to_string());
    let mut text = String::new();
    push_upper_hex(&mut text, 0xdead_beef);
    text.push(' ');
    push_hex8(&mut text, 0x1a);
    text.push(' ');
    push_hex16(&mut text, 0xab);
    text.push(' ');
    push_signed(&mut text, i64::MIN);
    assert_eq!(text, "DEADBEEF 0000001a 00000000000000ab -9223372036854775808");
}

#[test]
fn wide_texts_decode_as_in_the_standard_library() {
    let cases: [&[u16]; 6] = [
        &[],
        &[0x41, 0x20ac],
        &[0xd83d, 0xde00],
        &[0xd83d, 0x41, 0xde00],
        &[0xd83d],
        &[0xdbff, 0xdfff, 0xd800, 0xd800],
    ];
    for units in cases {
        assert_eq!(wide_text(units), String::from_utf16_lossy(units));
    }
    assert_eq!(wide_to_string(&[0x41, 0x42, 0, 0x43]), "AB");
    assert_eq!(wide_to_string(&[0x41]), "A");
    let text = "a€😀";
    let units = wide_null(text);
    let expected: Vec<u16> = text.encode_utf16().chain(Some(0)).collect();
    assert_eq!(units, expected);
    assert_eq!(wide_to_string(&units), text);
}

#[test]
fn debug_options_parse() {
    let options = parse_debug_options(&strings(&["--out", "d", "--duration", "45", "--interval-ms", "7", "--dump"]))
        .unwrap();
    assert_eq!(options.out_dir.as_deref(), Some("d"));
    assert_eq!((options.duration_sec, options.interval_ms), (45, 7));
    assert!(options.dump && !options.help);
    let options = parse_debug_options(&strings(&["-h"])).unwrap();
    assert!(options.help);
    assert_eq!((options.duration_sec, options.interval_ms), (30, 1000));
    assert_eq!(parse_debug_options(&strings(&["--out"])).unwrap_err(), "--out requires a value");
    assert_eq!(
        parse_debug_options(&strings(&["--duration", "x"])).unwrap_err(),
        "invalid --duration value 'x': invalid digit found in string"
    );
    assert_eq!(parse_debug_options(&strings(&["x"])).unwrap_err(), "unknown argument 'x'");
    assert!(keeps_sampling(999_999_999, 1));
    assert!(!keeps_sampling(1_000_000_000, 1));
}

#[test]
fn the_program_is_recognized() {
    assert!(is_rustadmin_process("RustAdmin.exe"));
    assert!(is_rustadmin_process("RUSTADMIN.EXE"));
    assert!(!is_rustadmin_process("rustadmin"));
    assert!(is_rustadmin_pipe("query-RustAdmin-1"));
    assert!(!is_rustadmin_pipe("rust-admin"));
}

#[test]
fn the_newest_files_come_first() {
    assert_eq!(newest_files(&[5, 9, -1, 9, 7], 3), vec![3, 1, 4]);
    assert_eq!(newest_files(&[5, 9], 12), vec![1, 0]);
    assert!(newest_files(&[], 12).is_empty());
    assert!(newest_files(&[1], 0).is_empty());
}

#[test]
fn reports_are_json() {
    let processes = vec![
        ProcessInfo { pid: 1, parent_pid: 2, thread_count: 3, name: "a\"".to_owned() },
        ProcessInfo { pid: 4, parent_pid: 5, thread_count: 6, name: "b".to_owned() },
    ];
    assert!(lists_process(&processes, 4));
    assert!(!lists_process(&processes, 2));
    assert_eq!(
        process_list_json(&processes),
        "[{\"pid\":1,\"parent_pid\":2,\"thread_count\":3,\"name\":\"a\\\"\"},{\"pid\":4,\"parent_pid\":5,\"thread_count\":6,\"name\":\"b\"}]"
    );
    assert_eq!(process_list_json(&[]), "[]");
    let windows = vec![WindowInfo {
        hwnd: 0xab,
        pid: 1,
        title: "t".to_owned(),
        responsive: false,
        elapsed_ms: 500,
        error: 1460,
    }];
    assert_eq!(
        window_list_json(&windows),
        "[{\"hwnd\":\"0xAB\",\"pid\":1,\"title\":\"t\",\"responsive\":false,\"elapsed_ms\":500,\"error\":1460}]"
    );
    assert_eq!(string_array_json(&strings(&["a", "b"])), "[\"a\",\"b\"]");
    assert_eq!(
        summary_text("dir", &processes, &windows),
        "RustAdmin debug probe\nOutput: dir\nProcesses:\n  pid=1 ppid=2 threads=3 name=a\"\n  pid=4 ppid=5 threads=6 name=b\nWindows:\n  hwnd=0xAB pid=1 responsive=false elapsed_ms=500 title=t\n"
    );
    assert_eq!(file_latency_json("p", &FileLatency::Missing), "{\"exists\":false,\"path\":\"p\"}");
    assert_eq!(
        file_latency_json("p", &FileLatency::WriteFailed { write_ms: 1, error: "e".to_owned() }),
        "{\"exists\":true,\"ok\":false,\"path\":\"p\",\"write_ms\":1,\"error\":\"e\"}"
    );
    let measured = FileLatency::Measured {
        write_ms: 1,
        read_ms: 2,
        read_ok: true,
        delete_ms: 3,
        delete_ok: false,
    };
    assert_eq!(
        file_latency_json("p", &measured),
        "{\"exists\":true,\"ok\":true,\"path\":\"p\",\"write_ms\":1,\"read_ms\":2,\"read_ok\":true,\"delete_ms\":3,\"delete_ok\":false}"
    );
    assert_eq!(dump_result_json(DumpResult::Written), "{\"ok\":true}");
    assert_eq!(
        dump_result_json(DumpResult::OpenProcessFailed(5)),
        "{\"ok\":false,\"error\":\"OpenProcess failed: 5\"}"
    );
    assert_eq!(command_output(b"out", b""), b"out");
    assert_eq!(command_output(b"out", b"err"), b"out\n--- stderr ---\nerr");
    let mut log = EventLog::new();
    let fields = vec![
        EventField { key: "a".to_owned(), value: "1".to_owned() },
        EventField { key: "b".to_owned(), value: "\"x\"".to_owned() },
    ];
    assert_eq!(
        log.event_fields(9, "e", &fields),
        "{\"ts_ms\":9,\"seq\":1,\"event\":\"e\",\"a\":1,\"b\":\"x\"}\n"
    );
    assert_eq!(log.event_fields(9, "f", &[]), "{\"ts_ms\":9,\"seq\":2,\"event\":\"f\"}\n");
}

#[test]
fn dxgi_options_parse() {
    let options = parse_dxgi_options(&strings(&[
        "--display", "1", "--duration", "2", "--timeout-ms", "3", "--wake", "redraw", "--mode",
        "hybrid-gdi-bootstrap", "--jsonl", "j", "--save-first", "s", "--map-pointer-only", "--list-displays",
    ]))
    .unwrap();
    assert_eq!((options.display, options.duration_sec, options.timeout_ms), (1, 2, 3));
    assert_eq!((options.wake, options.mode), (WakeMode::Redraw, Mode::HybridGdiBootstrap));
    assert_eq!((options.jsonl.as_str(), options.save_first.as_deref()), ("j", Some("s")));
    assert!(options.map_pointer_only && options.list_displays && !options.help);
    let defaults = parse_dxgi_options(&[]).unwrap();
    assert_eq!(defaults.jsonl, "dxgi-probe.jsonl");
    assert_eq!(defaults.wake, WakeMode::Off);
    assert_eq!(parse_dxgi_options(&strings(&["--wake", "x"])).unwrap_err(), "unknown wake mode 'x'");
    assert_eq!(parse_dxgi_options(&strings(&["--mode", "x"])).unwrap_err(), "unknown mode 'x'");
    assert_eq!(parse_dxgi_options(&strings(&["--wake"])).unwrap_err(), "--wake requires a value");
    assert_eq!(
        parse_dxgi_options(&strings(&["--timeout-ms", "4294967296"])).unwrap_err(),
        "invalid --timeout-ms value '4294967296': number too large to fit in target type"
    );
    for wake in [WakeMode::Off, WakeMode::Cursor, WakeMode::Redraw, WakeMode::LayeredWindow] {
        assert_eq!(WakeMode::parse(wake.as_str()), Ok(wake));
    }
    for mode in [Mode::DxgiOnly, Mode::HybridGdiBootstrap] {
        assert_eq!(Mode::parse(mode.as_str()), Ok(mode));
    }
}

#[test]
fn capture_results_are_told_apart() {
    assert_eq!(DXGI_ERROR_WAIT_TIMEOUT as u32, 0x887a_0027);
    assert_eq!(DXGI_ERROR_ACCESS_LOST as u32, 0x887a_0026);
    assert_eq!(acquire_result(0), Ok(()));
    assert_eq!(acquire_result(DXGI_ERROR_WAIT_TIMEOUT), Err(CaptureFailure::Timeout));
    assert_eq!(
        acquire_result(DXGI_ERROR_ACCESS_LOST),
        Err(CaptureFailure::AccessLost(DXGI_ERROR_ACCESS_LOST))
    );
    assert_eq!(hresult_to_probe(DXGI_ERROR_WAIT_TIMEOUT), Err(CaptureFailure::Hresult(DXGI_ERROR_WAIT_TIMEOUT)));
    assert_eq!(hresult_to_io(1, "x"), Ok(()));
    assert_eq!(hresult_to_io(-1, "Map").unwrap_err(), "Map failed: 0xffffffff");
    assert!(is_pointer_only(false, 0));
    assert!(!is_pointer_only(true, 0));
    assert!(!is_pointer_only(false, 5));
    assert_eq!(mapped_len(u32::MAX, 2), u64::from(u32::MAX) * 2);
}

#[test]
fn attempts_are_tallied() {
    let mut tally = ProbeTally::new(Mode::DxgiOnly);
    tally.attempt();
    assert!(tally.failure(CaptureFailure::Timeout));
    tally.attempt();
    assert!(tally.failure(CaptureFailure::PointerOnly));
    tally.attempt();
    assert!(tally.frame());
    tally.attempt();
    assert!(!tally.frame());
    assert!(!tally.failure(CaptureFailure::AccessLost(-5)));
    assert!(!tally.failure(CaptureFailure::Hresult(-5)));
    assert!(!tally.failure(CaptureFailure::Io));
    assert_eq!(
        summary_fields(&tally),
        "\"attempts\":4,\"frames\":2,\"timeouts\":1,\"access_lost\":1"
    );
    assert!(!ProbeTally::new(Mode::HybridGdiBootstrap).frame());
}

#[test]
fn frames_are_hashed_and_saved() {
    let data = [1u8, 2, 3, 4, 9, 5, 6, 7, 8, 9];
    let mut expected = 0xcbf2_9ce4_8422_2325_u64;
    for byte in [1u8, 2, 3, 4, 5, 6, 7, 8] {
        expected ^= u64::from(byte);
        expected = expected.wrapping_mul(0x100_0000_01b3);
    }
    assert_eq!(hash_bgra_rows(&data, 1, 2, 5), expected);
    assert_eq!(hash_bgra_rows(&data, 1, 9, 5), expected);
    assert_eq!(hash_bgra_rows(&[], 1, 2, 5), 0xcbf2_9ce4_8422_2325);
    assert_eq!(hash_bgra_rows(&[1, 2, 3, 4, 0, 5, 6, 7, 8], 1, 2, 5), expected);
    let file = save_bgra_bmp(1, 2, 5, &data).unwrap();
    assert_eq!(&file[54..], &[5, 6, 7, 8, 1, 2, 3, 4]);
    assert_eq!(&file[38..46], &[0x13, 0x0b, 0, 0, 0x13, 0x0b, 0, 0]);
    assert_eq!(
        save_bgra_bmp(1, 3, 5, &data).unwrap_err(),
        "frame buffer is smaller than BMP dimensions"
    );
    assert!(save_bgra_bmp(2, 1, 7, &data).is_err());
    assert_eq!(snapshot_stride(3, 1), Some(12));
    assert_eq!(snapshot_stride(3, 0), None);
}

#[test]
fn probe_events_are_json() {
    let mut log = ProbeLog::new();
    assert_eq!(log.event(5, "a", ""), "{\"ts_ms\":5,\"seq\":1,\"event\":\"a\"}\n");
    assert_eq!(
        log.event(5, "b\"", &json_error("x\ny")),
        "{\"ts_ms\":5,\"seq\":2,\"event\":\"b\\\"\",\"error\":\"x\\ny\"}\n"
    );
    let rect = DisplayRect { left: -10, top: 5, right: 90, bottom: 4 };
    assert_eq!((rect.width(), rect.height()), (100, 0));
    assert_eq!(
        display_line(1, "A", "O", &rect, true),
        "#1: adapter='A' output='O' rect=100x0+-10+5 attached=true"
    );
    assert_eq!(display_unavailable(2), "display 2 is unavailable; run --list-displays first");
    let options = parse_dxgi_options(&[]).unwrap();
    assert_eq!(
        start_fields(&options, &rect),
        "\"display\":0,\"duration_ms\":30000,\"timeout_ms\":500,\"wake\":\"none\",\"mode\":\"dxgi\",\"rect\":{\"left\":-10,\"top\":5,\"right\":90,\"bottom\":4}"
    );
    assert_eq!(
        snapshot_fields(1, 2, 4, 0xff),
        "\"width\":1,\"height\":2,\"stride\":4,\"hash\":\"00000000000000ff\""
    );
    let info = FrameInfo {
        accumulated_frames: 1,
        last_present_time: -2,
        last_mouse_update_time: 3,
        metadata_bytes: 4,
        pointer_shape_bytes: 5,
    };
    assert_eq!(
        frame_fields(7, 8, &info, 1, 2, 4, 0xab),
        "\"attempt\":7,\"wait_ms\":8,\"accumulated_frames\":1,\"last_present_time\":-2,\"last_mouse_update_time\":3,\"metadata_bytes\":4,\"pointer_shape_bytes\":5,\"width\":1,\"height\":2,\"row_pitch\":4,\"hash\":\"00000000000000ab\""
    );
    assert!(pointer_fields(7, &info).starts_with("\"attempt\":7,\"accumulated_frames\":1,"));
    assert_eq!(
        created_fields(1, 2, 3, 4, 87, 1),
        "\"width\":1,\"height\":2,\"mode_desc_width\":3,\"mode_desc_height\":4,\"format\":87,\"rotation\":1"
    );
    assert_eq!(timeout_fields(1, 500), "\"attempt\":1,\"timeout_ms\":500");
    assert_eq!(hresult_fields(1, DXGI_ERROR_ACCESS_LOST), "\"attempt\":1,\"hr\":\"0x887a0026\"");
    assert_eq!(io_error_fields(1, "e"), "\"attempt\":1,\"error\":\"e\"");
}

#[test]
fn safety_probes_conclude() {
    assert_eq!(exit_code(true, Some("1")), 2);
    assert_eq!(exit_code(true, Some("0")), 0);
    assert_eq!(exit_code(true, None), 0);
    assert_eq!(exit_code(false, Some("1")), 0);
    assert_eq!(argument_or(Some("12"), 5), 12);
    assert_eq!(argument_or(Some("x"), 5), 5);
    assert_eq!(argument_or(None, 5), 5);
    assert_eq!(encode_head_only(64 * 1024 * 1024), (((64_u32 * 1024 * 1024) << 2) | 3).to_le_bytes());
    assert_eq!(encode_head_only(0x4000_0001), [7, 0, 0, 0]);
    assert!(!allocation_reproduced(4, 4 + 1024 * 1024));
    assert!(allocation_reproduced(4, 5 + 1024 * 1024));
    assert!(!allocation_reproduced(5, 4));
    let cases = path_cases();
    assert_eq!(cases.len(), 4);
    assert_eq!((cases[2].name, cases[2].expected_reject), ("safe/file.txt", false));
    assert_eq!((cases[3].name, cases[3].expected_reject), ("bad\0name.txt", true));
    assert_eq!(link_case().name, "link/escape.txt");
    assert!(case_passes(true, true) && !case_passes(false, true));
    assert!(normal_reproduced(true, None));
    assert!(normal_reproduced(false, Some(0o700)));
    assert!(normal_reproduced(true, Some(0o720)));
    assert!(!normal_reproduced(true, Some(0o755)));
    let good = ServicePaths {
        service_is_service: true,
        uinput_is_service: true,
        probe_is_service: false,
        same_directory: true,
        cross_uid_shared: true,
        service_mode: Some(0o755),
        uinput_mode: Some(0o700),
    };
    assert!(!service_reproduced(&good));
    assert!(service_reproduced(&ServicePaths { probe_is_service: true, ..good }));
    assert!(service_reproduced(&ServicePaths { uinput_mode: None, ..good }));
    assert!(service_reproduced(&ServicePaths { service_mode: Some(0o777), ..good }));
    assert!(shared_across_users(true, true, false));
    assert!(!shared_across_users(true, true, true));
    assert!(!symlink_reproduced(Some(0o700)));
    assert!(symlink_reproduced(Some(0o755)));
    assert!(symlink_reproduced(None));
    let peers = peer_names(3);
    assert_eq!(peers, vec!["safety-peer-00000000", "safety-peer-00000001", "safety-peer-00000002"]);
    assert!(expansion_reproduced(101, 1, 101));
    assert!(!expansion_reproduced(100, 1, 100));
    assert!(!expansion_reproduced(101, 0, 101));
    assert!(!expansion_reproduced(202, 1, 101));
}
