use liveui::audio_ipc;
use liveui::capture_selector::{self, LiveCaptureWindowSelector};
use liveui::capture_service::{self, ArgsError, CodecTracker};
use liveui::encoder::{is_nvidia_encoder, parse_nal_units_from_buffer, select_encoder, NALUnitType};
use liveui::format::{format_hwnd, format_short_id};
use liveui::keystrokes::{counts_as_keystroke, KeystrokeCounter, WM_KEYDOWN, WM_SYSKEYDOWN};
use liveui::processes::{AudioEffect, AudioState, KpmState};
use liveui::selector::{PollOutcome, SelectorState, WindowInfo};
use liveui::selector_config::PresetConfig;
use liveui::stream_manager::{
    self, frame_records, init_info, parse_query_param, route_stream_request, StreamFrame,
    StreamManager, StreamRoute,
};
use liveui::streams::{CropParams, MessageEffect, StreamRegistry, StreamStatus};
use liveui::string_store::StringStore;
use liveui::video_ipc::{self, CodecParams, FrameMessage, NALUnit};
use liveui::ws_payload::{serialize_chunks, serialize_frames, AudioCursor, VideoCursor};
use liveui::ytm::{get_youtube_music_crop_geometry, YtmOutcome, YtmState};

fn window(hwnd: usize, title: &str, exe: &str) -> WindowInfo {
    WindowInfo {
        hwnd,
        pid: 1,
        title: title.into(),
        executable_path: exe.into(),
        width: 1280,
        height: 720,
    }
}

fn idr_frame(ts: u64) -> FrameMessage {
    FrameMessage {
        timestamp_us: ts,
        is_keyframe: true,
        nal_units: vec![NALUnit { unit_type: video_ipc::NALUnitType::IDR, data: vec![0, 0, 1, 0x65] }],
    }
}

// ── formatting ─────────────────────────────────────────────────────────────

#[test]
fn hwnd_and_short_id_text() {
    assert_eq!(format_hwnd(0x1A2B3C), "0x1A2B3C");
    assert_eq!(format_hwnd(0), "0x0");
    assert_eq!(format_short_id(0x1e240), "0001e240");
    assert_eq!(format_short_id(u32::MAX), "ffffffff");
}

// ── encoder output ─────────────────────────────────────────────────────────

#[test]
fn annexb_units_keep_start_codes() {
    let data = vec![
        0xAA, // garbage before the first start code
        0, 0, 0, 1, 0x67, 0x42, // SPS, 4-byte start code
        0, 0, 1, 0x68, 0xCE, // PPS, 3-byte start code
        0, 0, 1, 0x06, 0x05, // SEI: dropped
        0, 0, 0, 1, 0x65, 0x88, 0x80, // IDR
    ];
    let units = parse_nal_units_from_buffer(&data, 42);
    assert_eq!(units.len(), 3);
    assert_eq!(units[0].unit_type, NALUnitType::SPS);
    assert_eq!(units[0].data, vec![0, 0, 0, 1, 0x67, 0x42]);
    assert_eq!(units[1].unit_type, NALUnitType::PPS);
    assert_eq!(units[1].data, vec![0, 0, 1, 0x68, 0xCE]);
    assert_eq!(units[2].unit_type, NALUnitType::IDR);
    assert_eq!(units[2].data, vec![0, 0, 0, 1, 0x65, 0x88, 0x80]);
    assert!(units.iter().all(|u| u.timestamp_us == 42));
}

#[test]
fn annexb_edge_cases() {
    assert!(parse_nal_units_from_buffer(&[], 0).is_empty());
    assert!(parse_nal_units_from_buffer(&[0, 0, 1], 0).is_empty());
    assert!(parse_nal_units_from_buffer(&[1, 2, 3, 4], 0).is_empty());
    let units = parse_nal_units_from_buffer(&[0, 0, 1, 0x41], 0);
    assert_eq!(units.len(), 1);
    assert_eq!(units[0].unit_type, NALUnitType::NonIDR);
}

// ── stream registry ────────────────────────────────────────────────────────

#[test]
fn registry_create_list_destroy() {
    let mut reg = StreamRegistry::new("live-video.exe".into());
    let args = reg.create_stream("0001e240".into(), "0x1A2B", 1920, 1200);
    assert_eq!(args, vec!["live-video.exe", "--hwnd", "0x1A2B", "--width", "1920", "--height", "1200"]);
    let infos = reg.list();
    assert_eq!(infos.len(), 1);
    assert_eq!(infos[0].id, "0001e240");
    assert_eq!(infos[0].status, StreamStatus::Starting);
    assert_eq!(infos[0].generation, 1);
    assert!(reg.destroy_stream("0001e240"));
    assert!(!reg.destroy_stream("0001e240"));
    assert!(reg.list().is_empty());
}

#[test]
fn registry_crop_command_line() {
    let mut reg = StreamRegistry::new("cap".into());
    let crop = CropParams { min_x: 0, min_y: 644, max_x: 1184, max_y: 756 };
    let args = reg.create_crop_stream("id".into(), "0x1", &crop, Some(2));
    assert_eq!(
        args,
        vec![
            "cap", "--hwnd", "0x1", "--crop-min-x", "0", "--crop-min-y", "644", "--crop-max-x", "1184",
            "--crop-max-y", "756", "--fps", "2"
        ]
    );
    let args = reg.create_crop_stream("id2".into(), "0x1", &crop, None);
    assert_eq!(args.len(), 11);
}

#[test]
fn registry_replace_bumps_generation_and_resets() {
    let mut reg = StreamRegistry::new("cap".into());
    let (replaced, _) = reg.replace_stream("main", "0x1", 1920, 1200);
    assert!(!replaced);
    assert!(matches!(
        reg.apply_message("main", video_ipc::Message::CodecParams(CodecParams {
            sps: vec![1],
            pps: vec![2],
            width: 1920,
            height: 1200
        })),
        MessageEffect::CodecParamsStored { started: true }
    ));
    assert!(matches!(reg.apply_message("main", video_ipc::Message::Frame(idr_frame(5))), MessageEffect::FrameBuffered));
    assert_eq!(reg.get("main").unwrap().status, StreamStatus::Running);
    assert_eq!(reg.get("main").unwrap().buffer.get_frames_after(0).len(), 1);
    assert!(reg.can_replace("main"));
    let (replaced, args) = reg.replace_stream("main", "0x2", 1920, 1200);
    assert!(replaced);
    assert_eq!(args[2], "0x2");
    let s = reg.get("main").unwrap();
    assert_eq!(s.generation, 2);
    assert_eq!(s.hwnd, "0x2");
    assert_eq!(s.status, StreamStatus::Starting);
    assert!(s.buffer.get_frames_after(0).is_empty());
    assert!(s.buffer.get_codec_params().is_none());
    reg.mark_stopped("main");
    assert_eq!(reg.get("main").unwrap().status, StreamStatus::Stopped);
    assert!(matches!(reg.apply_message("nope", video_ipc::Message::Error("x".into())), MessageEffect::UnknownStream));
    match reg.apply_message("main", video_ipc::Message::Error("lost".into())) {
        MessageEffect::CaptureError(e) => assert_eq!(e, "lost"),
        _ => panic!("expected CaptureError"),
    }
    assert_eq!(reg.destroy_all(), vec!["main".to_string()]);
}

// ── websocket batches ──────────────────────────────────────────────────────

#[test]
fn video_batch_layout_and_cursor() {
    let mut reg = StreamRegistry::new("cap".into());
    reg.create_stream("s".into(), "0x1", 16, 16);
    reg.apply_message("s", video_ipc::Message::Frame(idr_frame(9)));
    let (buf, generation, last) = serialize_frames(&reg, "s", 0).unwrap();
    assert_eq!(generation, 1);
    assert_eq!(last, 1);
    let payload = reg.get("s").unwrap().buffer.get_frames_after(0)[0].payload.clone();
    let mut expected = vec![1, 0, 0, 0, 1, 0, 0, 0, 1, 0, 0, 0, 9, 0, 0, 0, 0, 0, 0, 0, 1];
    expected.extend_from_slice(&(payload.len() as u32).to_le_bytes());
    expected.extend_from_slice(&payload);
    assert_eq!(buf, expected);
    assert!(serialize_frames(&reg, "missing", 0).is_none());
    let (empty, _, after) = serialize_frames(&reg, "s", 1).unwrap();
    assert!(empty.is_empty());
    assert_eq!(after, 1);
}

#[test]
fn video_cursor_restarts_after_replacement() {
    let mut reg = StreamRegistry::new("cap".into());
    reg.create_stream("s".into(), "0x1", 16, 16);
    for ts in 0..3 {
        reg.apply_message("s", video_ipc::Message::Frame(idr_frame(ts)));
    }
    let (mut cursor, first) = VideoCursor::connect(&reg, "s", 0).unwrap();
    assert!(!first.is_empty());
    assert_eq!(cursor.last_seq, 3);
    assert!(cursor.next_batch(&reg, "s").unwrap().is_empty());
    // the process is replaced: generation 2, sequences start over
    reg.replace_stream("s", "0x2", 16, 16);
    reg.apply_message("s", video_ipc::Message::Frame(idr_frame(100)));
    let batch = cursor.next_batch(&reg, "s").unwrap();
    assert_eq!(cursor.current_gen, 2);
    assert_eq!(cursor.last_seq, 1);
    assert_eq!(&batch[0..4], &2u32.to_le_bytes());
    reg.destroy_stream("s");
    assert!(cursor.next_batch(&reg, "s").is_none());
}

#[test]
fn audio_batch_layout_and_cursor() {
    let mut audio = AudioState::new();
    let (mut cursor, first) = AudioCursor::connect(&audio.buffer, 0);
    assert!(first.is_empty());
    assert_eq!(cursor.last_seq, 0);
    audio.apply_message(audio_ipc::Message::AudioFrame(audio_ipc::AudioFrame { timestamp_us: 1, pcm_data: vec![7] }));
    let batch = cursor.next_batch(&audio.buffer);
    assert_eq!(batch, vec![1, 0, 0, 0, 1, 0, 0, 0, 9, 0, 0, 0, 1, 0, 0, 0, 0, 0, 0, 0, 7]);
    assert_eq!(cursor.last_seq, 1);
    let (again, last) = serialize_chunks(&audio.buffer, 1);
    assert!(again.is_empty());
    assert_eq!(last, 1);
}

// ── process managers ───────────────────────────────────────────────────────

#[test]
fn audio_state_start_stop() {
    let mut a = AudioState::new();
    assert_eq!(a.start("live-audio.exe", "Speakers").unwrap(), vec!["live-audio.exe", "--device", "Speakers"]);
    assert!(a.start("live-audio.exe", "Speakers").is_none());
    assert!(matches!(
        a.apply_message(audio_ipc::Message::AudioParams(audio_ipc::AudioParams {
            sample_rate: 48000,
            channels: 2,
            bits_per_sample: 16
        })),
        AudioEffect::ParamsStored
    ));
    assert!(a.buffer.get_audio_params().is_some());
    assert!(a.stop());
    assert!(!a.stop());
    assert!(a.buffer.get_audio_params().is_none());
}

#[test]
fn kpm_state_start_and_batches() {
    let mut k = KpmState::new();
    assert_eq!(k.start("live-kpm.exe").unwrap(), vec!["live-kpm.exe", "--batch-interval", "50"]);
    k.apply_batch(&liveui::kpm_ipc::Batch { t: 1_000_000, c: 3 });
    k.apply_batch(&liveui::kpm_ipc::Batch { t: 2_000_000, c: 3 });
    assert_eq!(k.calculator.window_totals(), Some((6, 1_000_000)));
    k.reader_finished();
    assert!(!k.active);
    assert_eq!(k.calculator.len(), 0);
}

#[test]
fn keystroke_counting_ignores_key_identity() {
    assert!(counts_as_keystroke(0, WM_KEYDOWN));
    assert!(counts_as_keystroke(0, WM_SYSKEYDOWN));
    assert!(!counts_as_keystroke(0, 0x0101));
    assert!(!counts_as_keystroke(-1, WM_KEYDOWN));
    let mut c = KeystrokeCounter::new();
    c.record(0, WM_KEYDOWN);
    c.record(0, 0x0101);
    c.record(0, WM_SYSKEYDOWN);
    let b = c.drain(77);
    assert_eq!((b.t, b.c), (77, 2));
    assert_eq!(c.count, 0);
}

// ── selectors ──────────────────────────────────────────────────────────────

#[test]
fn selector_switches_on_matching_window() {
    let mut sel = SelectorState::new(PresetConfig::defaults());
    let mut reg = StreamRegistry::new("cap".into());
    let mut strings = StringStore::new();
    assert!(sel.start(&mut strings));
    assert!(!sel.start(&mut strings));
    let out = sel.poll_step(Some(window(0xAB, "Solution - VS", "C:\\x\\devenv.exe")), &mut reg, &mut strings);
    match out {
        PollOutcome::Switched { replaced, args } => {
            assert!(!replaced);
            assert_eq!(args[2], "0xAB");
        }
        _ => panic!("expected a switch"),
    }
    let all = strings.get_all();
    assert_eq!(all.get("$liveMode").map(|s| s.as_str()), Some("code"));
    assert_eq!(all.get("$captureMode").map(|s| s.as_str()), Some("auto"));
    assert_eq!(sel.status().current_hwnd.as_deref(), Some("0xAB"));
    // same window, new title
    let out = sel.poll_step(Some(window(0xAB, "Other", "C:\\x\\devenv.exe")), &mut reg, &mut strings);
    assert!(matches!(out, PollOutcome::TitleUpdated));
    assert_eq!(strings.get_all().get("$captureWindowTitle").map(|s| s.as_str()), Some("Other"));
    // an excluded window changes nothing
    let out = sel.poll_step(Some(window(0xCD, "G", "C:\\gogh.exe")), &mut reg, &mut strings);
    assert!(matches!(out, PollOutcome::Unchanged));
    assert!(matches!(sel.poll_step(None, &mut reg, &mut strings), PollOutcome::Unchanged));
    assert_eq!(sel.stop(&mut reg, &mut strings), Some(true));
    assert!(reg.get("main").is_none());
    assert!(strings.get_all().get("$liveMode").is_none());
    assert_eq!(sel.stop(&mut reg, &mut strings), None);
}

#[test]
fn selector_reload_keeps_activity() {
    let mut sel = SelectorState::new(PresetConfig::defaults());
    let mut strings = StringStore::new();
    assert!(sel.start(&mut strings));
    let reloaded = PresetConfig::from_parts("streaming".into(), liveui::strmap::StrMap::new());
    sel.reload_config(reloaded);
    assert_eq!(sel.config.preset(), "streaming");
    assert!(sel.status().active);
}

#[test]
fn youtube_music_crop_box() {
    let c = get_youtube_music_crop_geometry(1280, 720).unwrap();
    assert_eq!((c.min_x, c.min_y, c.max_x, c.max_y), (0, 644, 1184, 756));
    assert!(get_youtube_music_crop_geometry(96, 720).is_none());
    assert!(get_youtube_music_crop_geometry(1280, 0).is_some());
}

#[test]
fn ytm_poll_captures_and_destroys() {
    let mut ytm = YtmState::new();
    let mut reg = StreamRegistry::new("cap".into());
    assert!(ytm.start());
    let windows = vec![window(1, "x", ""), window(0x2F, "YouTube Music - Nekomaru LiveUI v2", "")];
    match ytm.poll_step(&windows, &mut reg) {
        YtmOutcome::Captured { replaced, args } => {
            assert!(!replaced);
            assert_eq!(args[2], "0x2F");
            assert_eq!(args[args.len() - 1], "2");
        }
        _ => panic!("expected capture"),
    }
    assert!(matches!(ytm.poll_step(&windows, &mut reg), YtmOutcome::Unchanged));
    assert!(matches!(ytm.poll_step(&[], &mut reg), YtmOutcome::Destroyed { existed: true }));
    assert!(matches!(ytm.poll_step(&[], &mut reg), YtmOutcome::Unchanged));
    assert_eq!(ytm.stop(&mut reg), Some(false));
}

#[test]
fn desktop_selector_throttles_and_filters() {
    let mut s = LiveCaptureWindowSelector::new(0);
    let mut hwnd = 0usize;
    assert!(!s.update(1_000_000, 5, "C:\\devenv.exe", &mut hwnd));
    assert!(s.update(2_000_000, 5, "C:\\devenv.exe", &mut hwnd));
    assert_eq!(hwnd, 5);
    assert!(!s.update(4_000_000, 5, "C:\\devenv.exe", &mut hwnd));
    assert!(!s.update(6_000_000, 6, "C:\\gogh.exe\\devenv.exe", &mut hwnd));
    assert!(!s.update(8_000_000, 7, "C:\\notepad.exe", &mut hwnd));
    assert_eq!(hwnd, 5);
    assert!(capture_selector::should_capture("D:\\7-Games\\x.exe"));
    assert!(!capture_selector::should_capture("D:/7-Games/x.exe"));
}

// ── capture service ────────────────────────────────────────────────────────

fn args(v: &[&str]) -> Vec<String> {
    v.iter().map(|s| s.to_string()).collect()
}

#[test]
fn capture_args_parse() {
    let a = capture_service::parse_capture_args(&args(&["--hwnd", "0x1A2B3C", "--width", "1920", "--height", "1200"])).unwrap();
    assert_eq!((a.hwnd, a.width, a.height), (0x1A2B3C, 1920, 1200));
    let a = capture_service::parse_capture_args(&args(&["--height", "16", "--width", "+32", "--hwnd", "-5"])).unwrap();
    assert_eq!((a.hwnd, a.width, a.height), (-5, 32, 16));
}

#[test]
fn capture_args_errors() {
    let p = |v: &[&str]| capture_service::parse_capture_args(&args(v));
    assert!(matches!(p(&["--hwnd"]), Err(ArgsError::MissingValue(k)) if k == "--hwnd"));
    assert!(matches!(p(&["--hwnd", "0xZZ"]), Err(ArgsError::InvalidNumber(_, v)) if v == "0xZZ"));
    assert!(matches!(p(&["--width", "-16"]), Err(ArgsError::InvalidNumber(_, _))));
    assert!(matches!(p(&["--fps", "2"]), Err(ArgsError::UnknownArgument(k)) if k == "--fps"));
    assert!(matches!(p(&["--width", "16", "--height", "16"]), Err(ArgsError::MissingHwnd)));
    assert!(matches!(p(&["--hwnd", "1", "--height", "16"]), Err(ArgsError::MissingWidth)));
    assert!(matches!(p(&["--hwnd", "1", "--width", "16"]), Err(ArgsError::MissingHeight)));
    assert!(matches!(
        p(&["--hwnd", "1", "--width", "1920", "--height", "1080"]),
        Err(ArgsError::NotMultipleOf16 { width: 1920, height: 1080 })
    ));
    assert!(matches!(p(&["--hwnd", "0x0", "--width", "16", "--height", "16"]), Err(ArgsError::ZeroHwnd)));
}

#[test]
fn codec_params_sent_only_on_change() {
    let units = vec![
        NALUnit { unit_type: video_ipc::NALUnitType::SPS, data: vec![0x67, 1] },
        NALUnit { unit_type: video_ipc::NALUnitType::PPS, data: vec![0x68, 2] },
        NALUnit { unit_type: video_ipc::NALUnitType::IDR, data: vec![0x65] },
    ];
    let mut t = CodecTracker::new();
    let p = t.params_to_send(&units, 1920, 1200).unwrap();
    assert_eq!((p.sps.clone(), p.pps.clone(), p.width, p.height), (vec![0x67, 1], vec![0x68, 2], 1920, 1200));
    t.mark_sent(&p);
    assert!(t.params_to_send(&units, 1920, 1200).is_none());
    let f = capture_service::frame_message(units, 33);
    assert!(f.is_keyframe);
    assert_eq!(f.timestamp_us, 33);
    let plain = vec![NALUnit { unit_type: video_ipc::NALUnitType::NonIDR, data: vec![0x41] }];
    assert!(t.params_to_send(&plain, 1920, 1200).is_none());
    assert!(!capture_service::frame_message(plain, 34).is_keyframe);
}

// ── desktop stream manager ─────────────────────────────────────────────────

fn enc_unit(t: NALUnitType, data: Vec<u8>) -> liveui::encoder::NALUnit {
    liveui::encoder::NALUnit { unit_type: t, data, timestamp_us: 0 }
}

#[test]
fn stream_manager_queue_and_gating() {
    let mut m = StreamManager::new(2);
    m.push_frame(vec![], 0).unwrap();
    m.push_frame(vec![enc_unit(NALUnitType::NonIDR, vec![1])], 10).unwrap(); // seq 0
    m.push_frame(
        vec![
            enc_unit(NALUnitType::SPS, vec![0x67]),
            enc_unit(NALUnitType::PPS, vec![0x68]),
            enc_unit(NALUnitType::IDR, vec![0x65]),
        ],
        20,
    )
    .unwrap(); // seq 1
    m.push_frame(vec![enc_unit(NALUnitType::NonIDR, vec![2])], 30).unwrap(); // seq 2, drops seq 0
    let params = m.get_codec_params().unwrap();
    assert_eq!((params.sps, params.pps, params.width, params.height), (vec![0x67], vec![0x68], 1920, 1200));
    let frames = m.get_frames(0);
    assert_eq!(frames.len(), 2);
    assert_eq!(frames[0].sequence, 1);
    assert!(frames[0].is_keyframe);
    assert_eq!(frames[1].sequence, 2);
    assert!(m.get_frames(0).is_empty());
    m.push_frame(vec![enc_unit(NALUnitType::NonIDR, vec![3])], 40).unwrap(); // seq 3
    let frames = m.get_frames(2);
    assert_eq!(frames.len(), 1);
    assert_eq!(frames[0].sequence, 3);
}

#[test]
fn first_request_starts_at_first_keyframe() {
    let mut m = StreamManager::new(8);
    m.push_frame(vec![enc_unit(NALUnitType::NonIDR, vec![0])], 0).unwrap(); // seq 0
    m.push_frame(vec![enc_unit(NALUnitType::NonIDR, vec![1])], 10).unwrap(); // seq 1
    m.push_frame(vec![enc_unit(NALUnitType::IDR, vec![2])], 20).unwrap(); // seq 2
    m.push_frame(vec![enc_unit(NALUnitType::NonIDR, vec![3])], 30).unwrap(); // seq 3
    let seqs: Vec<u64> = m.get_frames(0).iter().map(|f| f.sequence).collect();
    assert_eq!(seqs, vec![2, 3]);
    m.push_frame(vec![enc_unit(NALUnitType::NonIDR, vec![4])], 40).unwrap(); // seq 4
    assert!(m.get_frames(0).is_empty());
}

#[test]
fn stream_records_are_base64_of_binary_frames() {
    let frame = StreamFrame {
        sequence: 4,
        nal_units: vec![enc_unit(NALUnitType::IDR, vec![0x65])],
        timestamp_us: 1,
        is_keyframe: true,
    };
    let mut bytes = Vec::new();
    stream_manager::serialize_stream_frame(&frame, &mut bytes);
    assert_eq!(bytes, vec![1, 0, 0, 0, 0, 0, 0, 0, 1, 0, 0, 0, 5, 1, 0, 0, 0, 0x65]);
    let records = frame_records(&vec![frame]).unwrap();
    assert_eq!(records[0].sequence, 4);
    assert_eq!(records[0].data, "AQAAAAAAAAABAAAABQEAAABl");
    let info = init_info(&CodecParams { sps: b"Man".to_vec(), pps: b"Ma".to_vec(), width: 2, height: 3 }).unwrap();
    assert_eq!((info.sps.as_str(), info.pps.as_str()), ("TWFu", "TWE="));
}

#[test]
fn stream_request_routing_and_query() {
    assert_eq!(route_stream_request("OPTIONS", "/anything"), StreamRoute::Preflight);
    assert_eq!(route_stream_request("GET", "/localhost/init"), StreamRoute::Init);
    assert_eq!(route_stream_request("GET", "/stream"), StreamRoute::Frames);
    assert_eq!(route_stream_request("GET", "/localhost"), StreamRoute::NotFound);
    assert_eq!(parse_query_param("after=42", "after"), Some(42));
    assert_eq!(parse_query_param("x=1&after=+7&after=9", "after"), Some(7));
    assert_eq!(parse_query_param("after=abc&after=5", "after"), Some(5));
    assert_eq!(parse_query_param("after", "after"), None);
    assert_eq!(parse_query_param("after=1=2", "after"), Some(1));
    assert_eq!(parse_query_param("after=18446744073709551616", "after"), None);
    assert_eq!(parse_query_param("", "after"), None);
}

#[test]
fn encoder_choice_is_first_nvidia_name() {
    assert!(is_nvidia_encoder("NVIDIA H.264 Encoder MFT"));
    assert!(is_nvidia_encoder("my nVidia encoder"));
    assert!(!is_nvidia_encoder("Intel Quick Sync Video H.264 Encoder MFT"));
    assert!(!is_nvidia_encoder("NVIDI"));
    let names: Vec<String> = vec![
        "AMDh264Encoder".into(),
        "NVIDIA H.264 Encoder MFT".into(),
        "Nvidia second".into(),
    ];
    assert_eq!(select_encoder(&names), Some(1));
    assert_eq!(select_encoder(&vec!["Intel".to_string()]), None);
    assert_eq!(select_encoder(&Vec::new()), None);
}
