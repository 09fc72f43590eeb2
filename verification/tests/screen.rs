use rustadmin_probes::screen::active_map::{
    apply_rotating_active_refresh, count_active, ActiveMapController, ActiveMapStrategy, ScreenDetection, Variant,
};
use rustadmin_probes::screen::corpus::{
    capture_poll_ms, checked_frame_bytes, copy_pixel_buffer_to_bgra, default_record_path, display_inventory,
    frame_record, select_display, validate_dimensions, validate_record, write_header, CapturedDisplay, Corpus,
    CorpusError, CorpusErrorKind, PixelBuffer, PixelFormat, RecordProgress,
};
use rustadmin_probes::screen::options::{
    codec_label, decoded_sample_name, decoder_name, float_text, hardware_dir_name, option_value, parse_analyze_options,
    parse_colors, parse_command, parse_export_options, parse_float_list, parse_hardware_options,
    parse_hardware_profiles, parse_record_options, parse_run_options, parse_string_list, parse_variants,
    positive_text, profile_label, run_dir_name, source_sample_name, validate_encoder, video_field, BenchCommand, HwEncoderProfile,
    VideoField, HELP,
};
use rustadmin_probes::screen::quantize::{ColorMode, ColorQuantizer};
use rustadmin_probes::screen::render::SyntheticScene;
use rustadmin_probes::screen::stats::{
    announced_display, bgra_bytes, decoded_frame_count, display_listing, percentile_value, recording_line, saves_decoded_sample, saves_source_sample,
    yuv420_format, yuv420_layout, AnalysisError, EncodeTally,
};
use rustadmin_probes::screen::yuv::{
    conversion_result, decoded_bgra, hw_decoded_bgra, write_bgra_bmp, DecodedPicture, DecodedPlane, EncodeYuvFormat,
    HwFrame, HwPixelFormat, QualityAccumulator, YuvBuffer, YuvError, YuvErrorKind,
};

fn strings(values: &[&str]) -> Vec<String> {
    values.iter().map(|value| (*value).to_string()).collect()
}

fn percentile_ms(sorted_ns: &[u64], percentile: usize) -> f64 {
    percentile_value(sorted_ns, percentile) as f64 / 1_000_000.0
}

#[test]
fn quantized_modes_have_expected_channel_levels() {
    let mut pixel = [123, 177, 231, 255];
    let quantizer = ColorQuantizer::new();
    quantizer.apply(&mut pixel, ColorMode::Colors4096);
    assert!(pixel[..3].iter().all(|value| value % 17 == 0));

    let mut pixel = [123, 177, 231, 255];
    quantizer.apply(&mut pixel, ColorMode::Colors256);
    assert_eq!(pixel[0] % 85, 0);
}

#[test]
fn synthetic_frames_are_deterministic() {
    let corpus = Corpus::synthetic(64, 48, 30, 3, SyntheticScene::Screen).expect("synthetic corpus");
    let mut first = vec![0u8; 64 * 48 * 4];
    let mut second = vec![0u8; first.len()];
    corpus.read_frame(1, &[], &mut first).expect("first render");
    corpus.read_frame(1, &[], &mut second).expect("second render");
    assert_eq!(first, second);
}

#[test]
fn packet_percentile_uses_sorted_samples() {
    assert_eq!(percentile_value(&[100, 200, 900], 50), 200);
    assert_eq!(percentile_value(&[100, 200, 900], 99), 900);
}

#[test]
fn recognizes_nvenc_codec_names() {
    assert_eq!(decoder_name("h264_nvenc"), "h264");
    assert_eq!(decoder_name("hevc_nvenc"), "hevc");
}

#[test]
fn parses_requested_matrix() {
    let options = parse_run_options(
        &[
            "--colors=full,256".to_owned(),
            "--variants".to_owned(),
            "baseline,active-map".to_owned(),
            "--i444".to_owned(),
        ],
        "out",
    )
    .expect("run options");
    assert_eq!(options.colors, vec![ColorMode::Full, ColorMode::Colors256]);
    assert_eq!(options.variants, vec![Variant::Baseline, Variant::ActiveMap]);
    assert!(options.i444);
}

#[test]
fn parses_one_based_record_display() {
    let options = parse_record_options(&[
        "--display=2".to_owned(),
        "--frames".to_owned(),
        "90".to_owned(),
    ])
    .expect("record options");
    assert_eq!(options.display, Some(2));
    assert_eq!(options.frames, 90);
    assert!(parse_record_options(&["--display=0".to_owned()]).is_err());
}

#[test]
fn parses_hardware_matrix() {
    let options = parse_hardware_options(
        &[
            "--input=screen.rasc".to_owned(),
            "--qualities=0.25,0.67".to_owned(),
            "--encoders".to_owned(),
            "h264_nvenc,hevc_nvenc".to_owned(),
            "--profiles=hq,default".to_owned(),
        ],
        "out",
    )
    .expect("hardware options");
    assert_eq!(options.input, Some("screen.rasc".to_owned()));
    let qualities: Vec<f32> = options.qualities.iter().map(|text| text.parse().unwrap()).collect();
    assert_eq!(qualities, vec![0.25, 0.67]);
    assert_eq!(options.encoders, vec!["h264_nvenc", "hevc_nvenc"]);
    assert_eq!(
        options.profiles,
        vec![HwEncoderProfile::HighQuality, HwEncoderProfile::Default]
    );
}

#[test]
fn parses_synthetic_hardware_corpus() {
    let options = parse_hardware_options(
        &[
            "--scene=mixed".to_owned(),
            "--width=1920".to_owned(),
            "--height=1080".to_owned(),
            "--frames=60".to_owned(),
            "--fps=20".to_owned(),
        ],
        "out",
    )
    .expect("synthetic hardware options");
    assert!(options.input.is_none());
    assert_eq!(options.width, 1920);
    assert_eq!(options.height, 1080);
    assert_eq!(options.frames, 60);
    assert_eq!(options.fps, 20);
    assert_eq!(options.scene, SyntheticScene::Mixed);
}

#[test]
fn percentile_uses_sorted_samples() {
    assert_eq!(percentile_ms(&[1_000_000, 2_000_000, 9_000_000], 50), 2.0);
    assert_eq!(percentile_ms(&[1_000_000, 2_000_000, 9_000_000], 99), 9.0);
}

#[test]
fn rotating_refresh_eventually_activates_every_block() {
    let mut seen = [false; 8];
    for frame in 0..4 {
        let mut map = [0u8; 8];
        apply_rotating_active_refresh(&mut map, frame, 4);
        for (index, active) in map.iter().enumerate() {
            seen[index] |= *active != 0;
        }
    }
    assert!(seen.into_iter().all(|value| value));
}

#[test]
fn warmup_uses_full_map_for_one_second() {
    let mut controller = ActiveMapController::new(ActiveMapStrategy::Warmup, 4, 1, 2);
    let mut map = [0u8; 4];

    assert_eq!(controller.apply(&mut map, 0, 0), 4);
    map.fill(0);
    assert_eq!(controller.apply(&mut map, 1, 0), 4);
    map.fill(0);
    assert_eq!(controller.apply(&mut map, 2, 0), 0);
}

#[test]
fn expanded_map_holds_neighboring_blocks() {
    let mut controller = ActiveMapController::new(ActiveMapStrategy::HoldExpanded, 5, 5, 30);
    let mut map = [0u8; 25];
    map[12] = 1;

    assert_eq!(controller.apply(&mut map, 0, 1), 9);
    for _ in 0..7 {
        map.fill(0);
        assert_eq!(controller.apply(&mut map, 1, 0), 9);
    }
    map.fill(0);
    assert_eq!(controller.apply(&mut map, 8, 0), 0);
}

#[test]
fn recovery_uses_bounded_full_frame_bursts() {
    let mut controller = ActiveMapController::new(ActiveMapStrategy::Recovery, 5, 2, 10);
    let mut map = [0u8; 10];

    assert_eq!(controller.apply(&mut map, 0, 0), 10);

    map.fill(0);
    map[..6].fill(1);
    assert_eq!(controller.apply(&mut map, 10, 6), 10);

    map.fill(0);
    assert_eq!(controller.apply(&mut map, 11, 0), 10);

    controller.full_active_remaining = 0;
    map.fill(0);
    assert_eq!(controller.apply(&mut map, 50, 0), 10);
}

#[test]
fn first_active_map_is_fully_active() {
    let format = EncodeYuvFormat {
        pixfmt: PixelFormat::I420,
        w: 32,
        h: 17,
        stride: vec![64, 32, 32],
        u: 64 * 17,
        v: 64 * 17 + 32 * 9,
    };
    let buffer = YuvBuffer::new(format).expect("YUV buffer");
    let mut map = vec![0u8; 4];
    let active = buffer.update_active_map(None, &mut map).expect("active map");
    assert_eq!(active, 4);
    assert_eq!(map, vec![1, 1, 1, 1]);
}

#[test]
fn allocates_nv12_layout() {
    let format = EncodeYuvFormat {
        pixfmt: PixelFormat::Nv12,
        w: 32,
        h: 17,
        stride: vec![64, 64],
        u: 64 * 17,
        v: 0,
    };
    let buffer = YuvBuffer::new(format).expect("NV12 buffer");
    assert_eq!(buffer.data.len(), 64 * 17 + 64 * 9);
}

#[test]
fn synthetic_pixels_have_their_places() {
    let corpus = Corpus::synthetic(640, 480, 30, 90, SyntheticScene::Mixed).unwrap();
    let mut frame = vec![0u8; 640 * 480 * 4];
    assert_eq!(corpus.read_frame(45, &[], &mut frame), Ok(1500));
    let pixel = |x: usize, y: usize| {
        let at = (y * 640 + x) * 4;
        [frame[at], frame[at + 1], frame[at + 2], frame[at + 3]]
    };
    assert_eq!(pixel(0, 0), [36, 38, 42, 255]);
    assert_eq!(pixel(20, 10), [82, 88, 96, 255]);
    assert_eq!(pixel(0, 42), [42, 48, 54, 255]);
    assert_eq!(pixel(639, 479), [44 + 17, 44 + 21, 56, 255]);
    let box_x = 640 / 6 + 18 + (45 * 7) % (640 * 47 / 100 - 80);
    assert_eq!(pixel(box_x, 288), [42, 128, 228, 255]);
    let motion = ((45_usize * 5) ^ (45 * 3)) as u8;
    assert_eq!(
        pixel(640 * 69 / 100, 70),
        [motion, (90 * 255 / 386) as u8, motion.rotate_left(2).wrapping_add(48), 255]
    );
    assert!(frame.chunks(4).all(|pixel| pixel[3] == 255));
}

#[test]
fn the_still_scene_moves_only_the_interface() {
    let corpus = Corpus::synthetic(640, 480, 30, 90, SyntheticScene::Screen).unwrap();
    let mut first = vec![0u8; 640 * 480 * 4];
    let mut second = first.clone();
    corpus.read_frame(0, &[], &mut first).unwrap();
    corpus.read_frame(60, &[], &mut second).unwrap();
    let row = (100 * 640 + 500) * 4;
    assert_eq!(first[row..row + 200], second[row..row + 200]);
    assert_ne!(first, second);
}

#[test]
fn corpus_requests_are_checked() {
    let make = |w, h, fps, frames| Corpus::synthetic(w, h, fps, frames, SyntheticScene::Screen);
    assert_eq!(make(0, 1, 1, 1).unwrap_err(), CorpusError::Dimensions);
    assert_eq!(make(16_385, 1, 1, 1).unwrap_err(), CorpusError::Dimensions);
    assert_eq!(make(1, 1, 0, 1).unwrap_err(), CorpusError::SyntheticTiming);
    let corpus = make(2, 2, 30, 3).unwrap();
    assert_eq!(corpus.metadata().name, "synthetic-screen-v1");
    assert_eq!((corpus.metadata().fps, corpus.metadata().frames), (30, 3));
    assert_eq!(corpus.reset(), None);
    assert_eq!(corpus.record_len(), 0);
    let mut buffer = [0u8; 16];
    assert_eq!(corpus.read_frame(3, &[], &mut buffer), Err(CorpusError::SyntheticIndex));
    assert_eq!(corpus.read_frame(0, &[], &mut buffer[..8]), Err(CorpusError::SyntheticLength));
    assert_eq!(checked_frame_bytes(16_384, 16_384), Ok(1 << 30));
    assert_eq!(checked_frame_bytes(16_384, 16_385), Err(CorpusError::FrameTooLarge));
    assert_eq!(checked_frame_bytes(usize::MAX, 2), Err(CorpusError::FrameOverflow));
    assert_eq!(validate_dimensions(1, 0), Err(CorpusError::Dimensions));
}

#[test]
fn recordings_replay_exactly() {
    let mut file = Vec::new();
    write_header(&mut file, 2, 1, 30, 2);
    let pixels = [1u8, 2, 3, 4, 5, 6, 7, 8];
    file.extend_from_slice(&frame_record(33, &pixels));
    file.extend_from_slice(&frame_record(66, &[9; 8]));
    assert_eq!(&file[..12], b"RASCBGR1\x01\0\0\0");
    let corpus = Corpus::recorded("a.rasc", &file[..28], file.len() as u64).unwrap();
    assert_eq!(corpus.metadata().name, "a.rasc");
    assert_eq!((corpus.metadata().width, corpus.metadata().height), (2, 1));
    assert_eq!(corpus.reset(), Some(28));
    assert_eq!(corpus.record_len(), 16);
    let mut bgra = [0u8; 8];
    assert_eq!(corpus.read_frame(0, &file[28..44], &mut bgra), Ok(33));
    assert_eq!(bgra, pixels);
    assert_eq!(corpus.read_frame(1, &file[44..], &mut bgra), Ok(66));
    assert_eq!(bgra, [9; 8]);
    assert_eq!(corpus.read_frame(2, &file[44..], &mut bgra), Err(CorpusError::FrameRequest));
    let short = corpus.read_frame(1, &file[45..], &mut bgra).unwrap_err();
    assert_eq!(short.kind(), CorpusErrorKind::UnexpectedEof);
}

#[test]
fn broken_recordings_are_refused() {
    let mut file = Vec::new();
    write_header(&mut file, 2, 1, 30, 1);
    let open = |bytes: &[u8], len: u64| Corpus::recorded("x", bytes, len).map(|_| ());
    assert_eq!(open(&file, 44), Ok(()));
    assert_eq!(open(&file, 43), Err(CorpusError::Size));
    assert_eq!(open(&file[..7], 44), Err(CorpusError::UnexpectedEof));
    assert_eq!(open(&file[..11], 44), Err(CorpusError::UnexpectedEof));
    assert_eq!(open(&file[..27], 44), Err(CorpusError::UnexpectedEof));
    let mut bad = file.clone();
    bad[0] = b'X';
    let err = open(&bad, 44).unwrap_err();
    assert_eq!(err.message(), "not a RustAdmin AV1 screen corpus");
    assert_eq!(err.kind(), CorpusErrorKind::InvalidData);
    let mut bad = file.clone();
    bad[8] = 2;
    assert_eq!(open(&bad, 44), Err(CorpusError::Version));
    let mut bad = file.clone();
    bad[12] = 0;
    assert_eq!(open(&bad, 44), Err(CorpusError::Dimensions));
    let mut bad = file.clone();
    bad[20] = 0;
    assert_eq!(open(&bad, 44), Err(CorpusError::Timing));
}

#[test]
fn captures_become_bgra() {
    let copy = |format, size, stride: &[usize], data: &[u8], out: &mut [u8]| {
        let source = PixelBuffer { width: 2, height: 1, data, stride, format, bytes_per_pixel: size };
        copy_pixel_buffer_to_bgra(&source, out)
    };
    let mut out = [0u8; 8];
    assert_eq!(copy(PixelFormat::Bgra, 4, &[9], &[1, 2, 3, 4, 5, 6, 7, 8, 9], &mut out), Ok(()));
    assert_eq!(out, [1, 2, 3, 4, 5, 6, 7, 8]);
    assert_eq!(copy(PixelFormat::Rgba, 4, &[8], &[1, 2, 3, 4, 5, 6, 7, 8], &mut out), Ok(()));
    assert_eq!(out, [3, 2, 1, 4, 7, 6, 5, 8]);
    assert_eq!(copy(PixelFormat::Rgb565Le, 2, &[4], &[0x1f, 0, 0xe0, 0xff], &mut out), Ok(()));
    assert_eq!(out, [255, 0, 0, 255, 0, 255, 255, 255]);
    assert_eq!(copy(PixelFormat::Bgra, 4, &[], &[0; 8], &mut out), Err(CorpusError::NoStride));
    assert_eq!(copy(PixelFormat::Bgra, 4, &[7], &[0; 8], &mut out), Err(CorpusError::PixelBuffer));
    assert_eq!(copy(PixelFormat::Bgra, 4, &[8], &[0; 7], &mut out), Err(CorpusError::PixelBuffer));
    assert_eq!(copy(PixelFormat::Bgra, 4, &[8], &[0; 8], &mut out[..4]), Err(CorpusError::PixelBuffer));
    let err = copy(PixelFormat::Nv12, 2, &[8], &[0; 8], &mut out).unwrap_err();
    assert_eq!(err.message(), "unsupported capture pixel format: NV12");
}

#[test]
fn displays_are_numbered_from_one() {
    let display = |name: &str, primary| CapturedDisplay {
        name: name.to_owned(),
        width: 10,
        height: 20,
        origin: (-1, 2),
        primary,
    };
    let infos = display_inventory(&[display("a", false), display("b", true)]);
    assert_eq!((infos[1].index, infos[1].name.as_str(), infos[1].origin), (2, "b", (-1, 2)));
    assert_eq!(display_listing(&infos[1]), "2: b | 10x20 | origin -1,2 | primary=true");
    assert_eq!(
        recording_line(9, &infos[0], "o.rasc"),
        "Recording 9 changed frames from display 1: a (10x20 at -1,2, primary=false) to o.rasc"
    );
    assert_eq!(announced_display(&infos, Some(1)), Some(0));
    assert_eq!(announced_display(&infos, Some(9)), Some(1));
    assert_eq!(announced_display(&infos, None), Some(1));
    assert_eq!(announced_display(&infos[..1], None), Some(0));
    assert_eq!(announced_display(&[], None), None);
    assert_eq!(select_display(&[false, true, true], None), Ok(1));
    assert_eq!(select_display(&[false], None), Ok(0));
    assert_eq!(select_display(&[false, true], Some(1)), Ok(0));
    assert_eq!(select_display(&[false, true], Some(0)), Err(CorpusError::DisplayIndex));
    assert_eq!(select_display(&[false, true], Some(3)), Err(CorpusError::DisplayIndex));
    assert_eq!(select_display(&[], Some(1)), Err(CorpusError::NoDisplays));
}

#[test]
fn recording_stops_when_the_screen_is_idle() {
    assert_eq!(validate_record(0, 30), Err(CorpusError::RecordTiming));
    assert_eq!(validate_record(1, 0), Err(CorpusError::RecordTiming));
    assert_eq!(validate_record(180, 30), Ok(()));
    assert_eq!(capture_poll_ms(30), 33);
    assert_eq!(capture_poll_ms(0), 1000);
    let mut progress = RecordProgress::new(0);
    assert_eq!(progress.check_idle(29_999_999_999, 30_000), Ok(()));
    let err = progress.check_idle(30_000_000_000, 30_000).unwrap_err();
    assert_eq!(err.kind(), CorpusErrorKind::TimedOut);
    progress.frame_written(20_000_000_000);
    assert_eq!(progress.written, 1);
    assert_eq!(progress.check_idle(30_000_000_000, 30_000), Ok(()));
    assert_eq!(default_record_path(), "av1-screen-corpus.rasc");
}

#[test]
fn reduced_colors_are_exact() {
    let quantizer = ColorQuantizer::new();
    let mut frame = [123, 177, 231, 77, 9];
    quantizer.apply(&mut frame, ColorMode::Colors4096);
    assert_eq!(frame, [119, 170, 238, 77, 9]);
    let mut frame = [123, 177, 231, 77];
    quantizer.apply(&mut frame, ColorMode::Colors256);
    assert_eq!(frame, [85, 182, 219, 77]);
    let mut frame = [10, 250, 240, 1, 200, 190, 200, 2];
    quantizer.apply(&mut frame, ColorMode::Colors16);
    assert_eq!(frame, [0, 255, 255, 1, 192, 192, 192, 2]);
    let mut frame = [1, 2, 3];
    quantizer.apply(&mut frame, ColorMode::Full);
    assert_eq!(frame, [1, 2, 3]);
    for mode in [ColorMode::Full, ColorMode::Colors4096, ColorMode::Colors256, ColorMode::Colors16] {
        let mut once: Vec<u8> = (0..=255).cycle().take(4096).collect();
        once.rotate_left(3);
        quantizer.apply(&mut once, mode);
        let mut twice = once.clone();
        quantizer.apply(&mut twice, mode);
        assert_eq!(once, twice);
        assert_eq!(ColorMode::parse(mode.label()), Some(mode));
    }
    assert_eq!(ColorMode::parse("8"), None);
    assert_eq!(SyntheticScene::parse("mixed"), Some(SyntheticScene::Mixed));
    assert_eq!(SyntheticScene::parse("video"), None);
}

#[test]
fn the_palette_is_the_nearest_of_sixteen() {
    let palette: [[i32; 3]; 16] = [
        [0, 0, 0], [128, 0, 0], [0, 128, 0], [128, 128, 0], [0, 0, 128], [128, 0, 128], [0, 128, 128],
        [192, 192, 192], [128, 128, 128], [255, 0, 0], [0, 255, 0], [255, 255, 0], [0, 0, 255], [255, 0, 255],
        [0, 255, 255], [255, 255, 255],
    ];
    let quantizer = ColorQuantizer::new();
    for (b, g, r) in [(0_i32, 0_i32, 0_i32), (60, 70, 80), (100, 200, 30), (200, 10, 250), (161, 161, 161)] {
        let wide = |value: i32| value / 8 * 255 / 31;
        let best = palette
            .iter()
            .min_by_key(|color| {
                let (dr, dg, db) = (wide(r) - color[2], wide(g) - color[1], wide(b) - color[0]);
                2 * dr * dr + 4 * dg * dg + db * db
            })
            .unwrap();
        let mut pixel = [b as u8, g as u8, r as u8, 0];
        quantizer.apply(&mut pixel, ColorMode::Colors16);
        assert_eq!([pixel[0] as i32, pixel[1] as i32, pixel[2] as i32], *best);
    }
}

#[test]
fn layouts_are_checked() {
    let format = |pixfmt, stride: &[usize]| EncodeYuvFormat {
        pixfmt,
        w: 4,
        h: 3,
        stride: stride.to_vec(),
        u: 12,
        v: 20,
    };
    assert_eq!(YuvBuffer::new(format(PixelFormat::I420, &[4, 2, 2])).unwrap().data.len(), 24);
    assert_eq!(YuvBuffer::new(format(PixelFormat::I444, &[4, 4, 4])).unwrap().data.len(), 32);
    assert_eq!(YuvBuffer::new(format(PixelFormat::I420, &[4, 2])).unwrap_err(), YuvError::Layout);
    assert_eq!(YuvBuffer::new(format(PixelFormat::Bgra, &[4, 2, 2])).unwrap_err(), YuvError::Format);
    assert_eq!(
        YuvBuffer::new(format(PixelFormat::I420, &[usize::MAX, 2, 2])).unwrap_err(),
        YuvError::YOverflow
    );
    assert_eq!(
        YuvBuffer::new(format(PixelFormat::I420, &[4, usize::MAX, 2])).unwrap_err(),
        YuvError::UOverflow
    );
    let err = YuvBuffer::new(format(PixelFormat::I420, &[4, 2, usize::MAX])).unwrap_err();
    assert_eq!(err.message(), "V plane size overflow");
}

#[test]
fn conversions_are_planned() {
    let format = EncodeYuvFormat { pixfmt: PixelFormat::Nv12, w: 4, h: 2, stride: vec![8, 8], u: 16, v: 0 };
    let buffer = YuvBuffer::new(format).unwrap();
    let plan = buffer.convert_bgra(&[0; 32]).unwrap();
    assert_eq!((plan.width, plan.height, plan.source_stride), (4, 2, 16));
    assert_eq!((plan.y_stride, plan.u_stride, plan.u_offset, plan.v_stride), (8, 8, 16, 0));
    assert_eq!(buffer.convert_bgra(&[0; 31]).unwrap_err(), YuvError::SourceSize);
    assert_eq!(conversion_result(0), Ok(()));
    assert_eq!(
        conversion_result(-1).unwrap_err().message(),
        "libyuv conversion failed with code -1"
    );
}

#[test]
fn changed_blocks_become_active() {
    let format = EncodeYuvFormat { pixfmt: PixelFormat::Nv12, w: 33, h: 17, stride: vec![40, 40], u: 680, v: 0 };
    let mut buffer = YuvBuffer::new(format).unwrap();
    let previous = buffer.data.clone();
    let mut map = vec![7u8; 6];
    assert_eq!(buffer.update_active_map(Some(&previous), &mut map), Ok(0));
    buffer.data[16 * 40 + 32] = 2;
    buffer.data[3] = 1;
    buffer.data[35] = 99;
    assert_eq!(buffer.update_active_map(Some(&previous), &mut map), Ok(1));
    assert_eq!(map, [0, 0, 0, 0, 0, 1]);
    assert_eq!(buffer.update_active_map(None, &mut map[..5]), Err(YuvError::ActiveMapSize));
    assert_eq!(buffer.update_active_map(Some(&previous[1..]), &mut map), Err(YuvError::PreviousSize));
}

#[test]
fn luma_error_is_summed() {
    let format = EncodeYuvFormat { pixfmt: PixelFormat::Nv12, w: 2, h: 2, stride: vec![3, 4], u: 6, v: 0 };
    let mut source = YuvBuffer::new(format).unwrap();
    source.data[..6].copy_from_slice(&[10, 20, 99, 30, 40, 99]);
    let mut quality = QualityAccumulator::default();
    quality.compare_luma(&source, &[10, 20, 30, 40], 2).unwrap();
    assert_eq!((quality.squared_error_y(), quality.samples_y()), (0, 4));
    quality.compare_luma(&source, &[13, 20, 30, 36], 2).unwrap();
    assert_eq!((quality.squared_error_y(), quality.samples_y()), (25, 8));
    assert_eq!(quality.compare_luma(&source, &[0; 3], 2), Err(YuvError::LumaTooSmall));
    assert_eq!(quality.compare_luma(&source, &[0; 4], 1), Err(YuvError::LumaTooSmall));
    assert_eq!((quality.squared_error_y(), quality.samples_y()), (25, 8));
    let plane = |data, stride| DecodedPlane { data, stride };
    let none = plane(None, 0);
    let bytes = [10u8, 20, 30, 40];
    let picture = DecodedPicture { width: 2, height: 2, i444: false, y: plane(Some(&bytes[..]), 2), u: none, v: none };
    assert_eq!(quality.compare(&source, &picture), Ok(()));
    assert_eq!(quality.samples_y(), 12);
    let wide = DecodedPicture { width: 3, ..picture };
    assert_eq!(quality.compare(&source, &wide), Err(YuvError::DecodedLayout));
    let missing = DecodedPicture { y: none, ..picture };
    assert_eq!(quality.compare(&source, &missing), Err(YuvError::DecodedLayout));
    let narrow = DecodedPicture { y: plane(Some(&bytes[..]), 1), ..picture };
    assert_eq!(quality.compare(&source, &narrow), Err(YuvError::DecodedStride));
    let frame = |width, linesize| HwFrame {
        width,
        height: 2,
        format: HwPixelFormat::Nv12,
        data: vec![bytes.to_vec(), vec![]],
        linesize: vec![linesize, 2],
    };
    assert_eq!(quality.compare_hw_frame(&source, &frame(2, 2)), Ok(()));
    assert_eq!(quality.compare_hw_frame(&source, &frame(3, 2)), Err(YuvError::HwLayout));
    assert_eq!(quality.compare_hw_frame(&source, &frame(2, 3)), Err(YuvError::HwLumaTooSmall));
}

#[test]
fn decoded_pictures_become_bgra() {
    let luma = [16u8, 235, 126, 16];
    let gray = [128u8];
    let plane = |data, stride| DecodedPlane { data: Some(data), stride };
    let picture = DecodedPicture {
        width: 2,
        height: 2,
        i444: false,
        y: plane(&luma[..], 2),
        u: plane(&gray[..], 1),
        v: plane(&gray[..], 1),
    };
    let bgra = decoded_bgra(&picture).unwrap();
    assert_eq!(&bgra[..4], &[0, 0, 0, 255]);
    assert_eq!(&bgra[4..8], &[255, 255, 255, 255]);
    assert_eq!(&bgra[8..12], &[128, 128, 128, 255]);
    let cb = [240u8];
    let cr = [110u8];
    let blue = DecodedPicture { u: plane(&cb[..], 1), v: plane(&cr[..], 1), ..picture };
    let c = 235_i32 - 16;
    let expected_b = ((298 * c + 516 * 112 + 128) >> 8).clamp(0, 255) as u8;
    let expected_g = ((298 * c - 100 * 112 + 208 * 18 + 128) >> 8).clamp(0, 255) as u8;
    let expected_r = ((298 * c - 409 * 18 + 128) >> 8).clamp(0, 255) as u8;
    assert_eq!(&decoded_bgra(&blue).unwrap()[4..8], &[expected_b, expected_g, expected_r, 255]);
    let empty = DecodedPicture { width: 0, ..picture };
    assert_eq!(decoded_bgra(&empty).unwrap_err(), YuvError::DecodedImage);
    let hw = |format, data: Vec<Vec<u8>>, linesize: Vec<i32>| HwFrame { width: 2, height: 2, format, data, linesize };
    let nv12 = hw(HwPixelFormat::Nv12, vec![luma.to_vec(), vec![240, 110]], vec![2, 2]);
    assert_eq!(hw_decoded_bgra(&nv12).unwrap(), decoded_bgra(&blue).unwrap());
    let planar = hw(HwPixelFormat::Yuv420p, vec![luma.to_vec(), vec![240], vec![110]], vec![2, 1, 1]);
    assert_eq!(hw_decoded_bgra(&planar).unwrap(), decoded_bgra(&blue).unwrap());
    let fail = |frame: HwFrame| hw_decoded_bgra(&frame).unwrap_err();
    assert_eq!(fail(hw(HwPixelFormat::Other, vec![vec![], vec![]], vec![1, 1])), YuvError::HwFormat);
    assert_eq!(fail(hw(HwPixelFormat::Yuv420p, vec![vec![], vec![]], vec![1, 1])), YuvError::HwFormat);
    assert_eq!(fail(hw(HwPixelFormat::Nv12, vec![], vec![])), YuvError::HwImage);
    assert_eq!(fail(HwFrame { width: -1, ..hw(HwPixelFormat::Nv12, vec![], vec![]) }), YuvError::HwWidth);
    assert_eq!(fail(HwFrame { height: -1, ..hw(HwPixelFormat::Nv12, vec![], vec![]) }), YuvError::HwHeight);
}

#[test]
fn bitmaps_are_written_bottom_up() {
    let file = write_bgra_bmp(&[1, 2, 3, 4, 5, 6, 7, 8], 1, 2).unwrap();
    assert_eq!(file.len(), 62);
    assert_eq!(&file[..6], &[0x42, 0x4d, 62, 0, 0, 0]);
    assert_eq!(&file[10..30], &[54, 0, 0, 0, 40, 0, 0, 0, 1, 0, 0, 0, 2, 0, 0, 0, 1, 0, 32, 0]);
    assert_eq!(&file[34..38], &[8, 0, 0, 0]);
    assert_eq!(&file[54..], &[5, 6, 7, 8, 1, 2, 3, 4]);
    assert_eq!(write_bgra_bmp(&[0; 7], 1, 2).unwrap_err(), YuvError::BmpSource);
    assert_eq!(write_bgra_bmp(&[], usize::MAX, 0).unwrap_err(), YuvError::BmpRowOverflow);
    assert_eq!(write_bgra_bmp(&[], 1 << 31, 0).unwrap_err(), YuvError::BmpWidth);
    assert_eq!(write_bgra_bmp(&[], 0, 1 << 31).unwrap_err(), YuvError::BmpHeight);
}

#[test]
fn variants_set_their_controls() {
    for variant in Variant::all() {
        assert_eq!(Variant::parse(variant.label()), Some(variant));
        assert_eq!(variant.tuning().cpu_used, Some(10));
    }
    assert_eq!(Variant::all().len(), 11);
    let combined = Variant::Combined.tuning();
    assert_eq!(combined.screen_detection, Some(ScreenDetection::AntialiasingAware));
    assert_eq!(combined.adaptive_sharpness, Some(4));
    assert!(combined.auto_tiles && combined.enable_intrabc);
    assert!(!Variant::Baseline.tuning().auto_tiles);
    assert_eq!(Variant::Baseline.active_map_strategy(), None);
    assert_eq!(Variant::Combined.active_map_strategy(), Some(ActiveMapStrategy::Recovery));
}

#[test]
fn maps_stay_small_without_recovery() {
    let mut controller = ActiveMapController::new(ActiveMapStrategy::Recovery, 5, 2, 10);
    let mut map = [0u8; 10];
    map[9] = 1;
    assert_eq!(controller.apply(&mut map, 11, 1), 4);
    assert_eq!(map, [0, 0, 0, 1, 1, 0, 0, 0, 1, 1]);
    map.fill(0);
    assert_eq!(controller.apply(&mut map, 50, 0), 10);
    for frame in 51..55 {
        map.fill(0);
        assert_eq!(controller.apply(&mut map, frame, 0), 10);
    }
    map.fill(0);
    assert_eq!(controller.apply(&mut map, 55, 0), 4);
    let mut naive = ActiveMapController::new(ActiveMapStrategy::Naive, 5, 2, 0);
    map[0] = 5;
    assert_eq!(naive.apply(&mut map, 0, 1), count_active(&map));
}

#[test]
fn options_have_keys_and_values() {
    let args = strings(&["--a=b=c", "--d", "e", "--f=", "--g"]);
    assert_eq!(option_value(&args, 0), Ok(("--a".to_owned(), "b=c".to_owned(), false)));
    assert_eq!(option_value(&args, 1), Ok(("--d".to_owned(), "e".to_owned(), true)));
    assert_eq!(option_value(&args, 3).unwrap_err(), "missing value for --f");
    assert_eq!(option_value(&args, 4).unwrap_err(), "missing value for --g");
    assert_eq!(option_value(&args, 5).unwrap_err(), "missing option");
}

#[test]
fn run_options_are_checked() {
    let run = |args: &[&str]| parse_run_options(&strings(args), "out");
    let options = run(&[]).unwrap();
    assert_eq!((options.width, options.height, options.frames, options.fps), (1280, 720, 90, 30));
    assert_eq!((options.quality.as_str(), options.output_dir.as_str()), ("1.0", "out"));
    assert_eq!(options.variants, Variant::all());
    assert_eq!(run(&["--width=x"]).unwrap_err(), "invalid value for --width: x");
    assert_eq!(run(&["--quality=fine"]).unwrap_err(), "invalid value for --quality: fine");
    assert_eq!(run(&["--scene=video"]).unwrap_err(), "unknown synthetic scene: video");
    assert_eq!(run(&["--colors=full,8"]).unwrap_err(), "unknown color mode: 8");
    assert_eq!(run(&["--variants=fast"]).unwrap_err(), "unknown variant: fast");
    assert_eq!(run(&["--speed=1"]).unwrap_err(), "unknown run option: --speed");
    assert_eq!(
        run(&["--repeat=0"]).unwrap_err(),
        "run dimensions, timing, repeat, and quality must be positive"
    );
    assert_eq!(run(&["-h"]).unwrap_err(), HELP);
    assert_eq!(parse_colors("16,16,full").unwrap(), vec![ColorMode::Colors16, ColorMode::Full]);
    assert_eq!(parse_variants("all").unwrap(), Variant::all());
}

#[test]
fn floats_are_recognized_as_in_the_standard_library() {
    let texts = [
        "", ".", "1", "1.", ".5", "1.5", "-1.5", "+1", "1e5", "1e", "1e+5", "1.e-5", ".e5", "e5", "inf", "-INF",
        "infinity", "Infinit", "nan", "NaN", "+", "1_0", " 1", "1 ", "0x10", "1e5.5", "--1", "1.5.2", "\u{661}",
    ];
    for text in texts {
        assert_eq!(float_text(text), text.parse::<f32>().is_ok(), "{text}");
    }
}

#[test]
fn qualities_are_positive() {
    let half_smallest = "700649232162408535461864791644958065640130970938257885878534141944895541342930300743319094181060791015625";
    let texts = [
        "1", "0", "-1", "-0", "+0.5", "0.0e9", "0e1", "0.000", ".0", "0.001", "1e5", "-1e5", "nan", "inf", "-inf",
        "+infinity", "0.0", "00.10", "3e-2", "fine", "", "1e", "0e9e1", "1e38", "1e39", "1e400", "1e-45", "1e-46",
        "1e-60", "3.4028235e38", "3.4028236e38", "340282356779733661637539395458142568447",
        "340282356779733661637539395458142568448", "340282356779733661637539395458142568447.99999", "340282356779733661637539395458142568448.0",
        "340282356779733661637539395458142568447.9e0", "7e-46", "7.0064923e-46", "7.0064924e-46",
        "1e99999999999999999999999999999999", "1e-99999999999999999999999999999999",
        "0e99999999999999999999999999999999", "1e+00000000000000000000000000000000000000000000000002", "1.e1", ".1e1",
    ];
    let mut texts: Vec<String> = texts.iter().map(|text| (*text).to_string()).collect();
    texts.push(format!("{half_smallest}e-150"));
    texts.push(format!("{half_smallest}.0e-150"));
    texts.push(format!("{half_smallest}.000000000000000000000000000000000001e-150"));
    texts.push(format!("0.{}{half_smallest}", "0".repeat(45)));
    texts.push(format!("0.{}{half_smallest}1", "0".repeat(45)));
    texts.push(format!("0.{}1e401", "0".repeat(400)));
    texts.push(format!("1{}e-400", "0".repeat(400)));
    texts.push(format!("1{}e-350", "0".repeat(400)));
    for text in texts {
        let positive = text.parse::<f32>().is_ok_and(|value| value.is_finite() && value > 0.0);
        assert_eq!(positive_text(&text), positive, "{text}");
    }
    for text in ["-1", "nan", "inf", "0", "1e400", "1e-60"] {
        assert_eq!(
            parse_run_options(&strings(&["--quality", text]), "out").unwrap_err(),
            "run dimensions, timing, repeat, and quality must be positive"
        );
        assert_eq!(
            parse_hardware_options(&strings(&["--qualities", &format!("1,{text}")]), "out").unwrap_err(),
            "hardware dimensions, timing, repeat, qualities, encoders, and profiles must be positive"
        );
    }
}

#[test]
fn activity_is_held_for_eight_maps() {
    let mut controller = ActiveMapController::new(ActiveMapStrategy::HoldExpanded, 4, 3, 30);
    let mut holding = ActiveMapController::new(ActiveMapStrategy::Naive, 4, 3, 30);
    let mut maps: Vec<[u8; 12]> = Vec::new();
    let mut seed = 1_u32;
    for frame in 0..200 {
        let mut map = [0_u8; 12];
        seed = seed.wrapping_mul(1_103_515_245).wrapping_add(12_345);
        if seed % 9 == 0 {
            map[(seed >> 16) as usize % 12] = 3;
        }
        maps.push(map);
        let mut same = map;
        controller.apply(&mut map, frame, 0);
        holding.expand_and_hold(&mut same);
        assert_eq!(same, map);
        for block in 0..12_usize {
            let recent = maps.iter().rev().take(8).any(|map| {
                (0..12_usize).any(|other| {
                    map[other] != 0 && (other / 4).abs_diff(block / 4) <= 1 && (other % 4).abs_diff(block % 4) <= 1
                })
            });
            assert_eq!(map[block], u8::from(recent), "frame {frame}, block {block}");
        }
    }
}

#[test]
fn frame_requests_are_checked_before_reading() {
    let synthetic = Corpus::synthetic(16, 8, 30, 2, SyntheticScene::Screen).unwrap();
    assert_eq!(synthetic.check_frame(1, 16 * 8 * 4), Ok(()));
    assert_eq!(synthetic.check_frame(2, 16 * 8 * 4), Err(CorpusError::SyntheticIndex));
    assert_eq!(synthetic.check_frame(0, 4), Err(CorpusError::SyntheticLength));
    let mut header = Vec::new();
    write_header(&mut header, 16, 8, 30, 2);
    let recorded = Corpus::recorded("r", &header, 28 + 2 * (8 + 16 * 8 * 4)).unwrap();
    assert_eq!(recorded.check_frame(1, 16 * 8 * 4), Ok(()));
    assert_eq!(recorded.check_frame(2, 16 * 8 * 4), Err(CorpusError::FrameRequest));
    assert_eq!(recorded.check_frame(0, 4), Err(CorpusError::FrameRequest));
    assert_eq!(YuvError::Conversion(-1).kind(), YuvErrorKind::Other);
    assert_eq!(YuvError::Layout.kind(), YuvErrorKind::InvalidData);
}

#[test]
fn hardware_options_are_checked() {
    let run = |args: &[&str]| parse_hardware_options(&strings(args), "out");
    let options = run(&["--save-samples"]).unwrap();
    assert_eq!(options.qualities, vec!["0.25", "0.5", "0.67", "1.0"]);
    assert_eq!(options.encoders, vec!["h264_nvenc", "hevc_nvenc"]);
    assert!(options.save_samples);
    assert_eq!(run(&["--encoders=,"]).unwrap_err(), "--encoders requires at least one value");
    assert_eq!(run(&["--qualities=1,x"]).unwrap_err(), "invalid value for --qualities: x");
    assert_eq!(run(&["--profiles= , "]).unwrap_err(), "hardware encoder profile list must not be empty");
    assert_eq!(run(&["--profiles=hq,fast"]).unwrap_err(), "unknown hardware encoder profile: fast");
    assert_eq!(
        parse_hardware_profiles(" hq ,default,hq").unwrap(),
        vec![HwEncoderProfile::HighQuality, HwEncoderProfile::Default]
    );
    assert_eq!(run(&["--x=1"]).unwrap_err(), "unknown hardware run option: --x");
    assert!(run(&["--fps=0"]).is_err());
    assert_eq!(parse_float_list("k", "1,2").unwrap(), vec!["1", "2"]);
    assert_eq!(parse_string_list("k", "a,,b").unwrap(), vec!["a", "b"]);
    assert_eq!(profile_label(HwEncoderProfile::HighQuality), "hq");
}

#[test]
fn the_other_commands_need_their_paths() {
    let export = parse_export_options(&strings(&["--input=a", "--output", "b"])).unwrap();
    assert_eq!((export.input.as_str(), export.output.as_str()), ("a", "b"));
    assert_eq!(parse_export_options(&[]).unwrap_err(), "export-bgra requires --input");
    assert_eq!(
        parse_export_options(&strings(&["--input=a"])).unwrap_err(),
        "export-bgra requires --output"
    );
    assert_eq!(
        parse_export_options(&strings(&["--x=a"])).unwrap_err(),
        "unknown BGRA export option: --x"
    );
    let analyze = parse_analyze_options(&strings(&["--input=a", "--decoded=b", "--output=c"])).unwrap();
    assert_eq!(analyze.decoded, "b");
    assert_eq!(
        parse_analyze_options(&strings(&["--input=a", "--output=c"])).unwrap_err(),
        "analyze-yuv420 requires --decoded"
    );
    let record = parse_record_options(&strings(&["--capture=gdi", "--start-delay-ms=5", "--output=o"])).unwrap();
    assert!(record.force_gdi);
    assert_eq!((record.start_delay_ms, record.idle_timeout_ms, record.output.as_str()), (5, 30_000, "o"));
    assert_eq!(
        parse_record_options(&strings(&["--capture=x"])).unwrap_err(),
        "unknown capture backend: x"
    );
    assert!(parse_record_options(&strings(&["--idle-timeout-ms=0"])).is_err());
}

#[test]
fn benchmark_commands_are_told_apart() {
    let parse = |args: &[&str], hardware| parse_command(&strings(args), hardware, "run", "hw");
    assert!(matches!(parse(&[], false), Ok(BenchCommand::Run(_))));
    assert!(matches!(parse(&["help"], false), Ok(BenchCommand::Help)));
    assert!(matches!(parse(&["list-displays"], false), Ok(BenchCommand::ListDisplays)));
    assert_eq!(parse(&["list-displays", "x"], false).unwrap_err(), "unknown command: list-displays");
    assert_eq!(parse(&["run-hw"], false).unwrap_err(), "run-hw is available only on Windows");
    match parse(&["run-hw"], true) {
        Ok(BenchCommand::RunHardware(options)) => assert_eq!(options.output_dir, "hw"),
        _ => panic!("unexpected command"),
    }
    assert!(matches!(parse(&["record"], false), Ok(BenchCommand::Record(_))));
    assert!(matches!(
        parse(&["export-bgra", "--input=a", "--output=b"], false),
        Ok(BenchCommand::ExportBgra(_))
    ));
    assert!(matches!(
        parse(&["analyze-yuv420", "--input=a", "--decoded=b", "--output=c"], false),
        Ok(BenchCommand::AnalyzeYuv420(_))
    ));
    assert_eq!(run_dir_name(12), "av1-screen-12");
    assert_eq!(hardware_dir_name(0), "hardware-screen-0");
}

#[test]
fn encoders_are_told_apart() {
    assert_eq!(codec_label("h264_nvenc"), "H.264");
    assert_eq!(codec_label("h265_amf"), "H.265");
    assert_eq!(validate_encoder("hevc_qsv"), Ok(()));
    assert_eq!(
        validate_encoder("vp9").unwrap_err(),
        "unsupported hardware benchmark encoder: vp9"
    );
    assert_eq!(video_field("h264"), Ok(VideoField::H264s));
    assert_eq!(video_field("hevc"), Ok(VideoField::H265s));
    assert!(video_field("av1").is_err());
    assert_eq!(source_sample_name(ColorMode::Colors16), "source-16.bmp");
    assert_eq!(
        decoded_sample_name(Variant::ScreenAa, ColorMode::Full),
        "decoded-screen-aa-full.bmp"
    );
    assert!(saves_source_sample(true, 0, 45, 90, Variant::Baseline));
    assert!(!saves_source_sample(true, 0, 45, 90, Variant::Combined));
    assert!(saves_decoded_sample(true, 0, 45, 91));
    assert!(!saves_decoded_sample(true, 1, 45, 90));
    assert!(!saves_decoded_sample(false, 0, 45, 90));
}

#[test]
fn runs_are_summarized_in_order() {
    let mut tally = EncodeTally::new();
    assert!(tally.summarize(false).is_none());
    for nanos in [40_000_000, 1_000, 20_000_000, 3_000] {
        tally.encode_time(nanos);
    }
    assert!(tally.summarize(false).is_none());
    tally.decoded_frame();
    assert!(tally.summarize(true).is_none());
    tally.software_packet(10, true);
    tally.hardware_packet(30, true);
    tally.hardware_packet(20, false);
    tally.message(5);
    tally.hardware_message(u64::MAX);
    tally.active_map(3, 10);
    tally.pass_ended(1000, 30);
    let summary = tally.summarize(true).unwrap();
    assert_eq!(summary.samples, 4);
    assert_eq!(summary.total_ns, 60_004_000);
    assert_eq!((summary.p50_ns, summary.p99_ns), (20_000_000, 40_000_000));
    assert_eq!((summary.over_16_67_ms, summary.over_33_33_ms), (2, 1));
    assert_eq!((summary.packet_p50_bytes, summary.largest_packet_bytes), (30, 30));
    assert_eq!((tally.payload_bytes, tally.keyframe_bytes, tally.largest_keyframe_bytes), (60, 10, 30));
    assert_eq!((tally.encoded_packets, tally.keyframes), (3, 2));
    assert_eq!((tally.protocol_bytes, tally.total_duration_ms), (u64::MAX, 1033));
    assert_eq!(tally.encode_times_ns, vec![1_000, 3_000, 20_000_000, 40_000_000]);
    assert_eq!(percentile_value(&[], 50), 0);
}

#[test]
fn decoded_files_are_checked() {
    let layout = yuv420_layout(5, 3).unwrap();
    assert_eq!((layout.luma_bytes, layout.chroma_width, layout.chroma_bytes, layout.frame_bytes), (15, 3, 6, 27));
    let format = yuv420_format(5, 3, &layout);
    assert_eq!((format.u, format.v, format.stride), (15, 21, vec![5, 3, 3]));
    assert_eq!(yuv420_layout(usize::MAX, 2), Err(AnalysisError::LumaOverflow));
    assert_eq!(decoded_frame_count(54, 27, 2), Ok(2));
    assert_eq!(decoded_frame_count(53, 27, 2), Err(AnalysisError::PartialFrame));
    assert_eq!(decoded_frame_count(0, 27, 0), Err(AnalysisError::PartialFrame));
    assert_eq!(
        decoded_frame_count(27, 27, 2).unwrap_err().message(),
        "decoded frame count mismatch: expected 2, found 1"
    );
    assert_eq!(bgra_bytes(2, 3), Ok(24));
    assert_eq!(bgra_bytes(usize::MAX, 3), Err(AnalysisError::BgraOverflow));
}
