use liveui::audio_ipc::{self, AudioFrame, AudioParams};
use liveui::kpm_ipc::{self, Batch, BATCH_SIZE};
use liveui::kpm_json;
use liveui::video_ipc::{self, CodecParams, FrameMessage, NALUnit, NALUnitType};
use liveui::wire::{ByteCursor, WireError};

// ── audio ──────────────────────────────────────────────────────────────────

#[test]
fn round_trip_audio_params() {
    let params = AudioParams { sample_rate: 48000, channels: 2, bits_per_sample: 16 };
    let mut buf = Vec::new();
    audio_ipc::write_audio_params(&mut buf, &params);
    let mut cursor = ByteCursor::new(buf);
    let msg = audio_ipc::read_message(&mut cursor).unwrap().unwrap();
    match msg {
        audio_ipc::Message::AudioParams(decoded) => assert_eq!(decoded, params),
        other => panic!("expected AudioParams, got {other:?}"),
    }
}

#[test]
fn round_trip_audio_frame() {
    let pcm: Vec<u8> = vec![
        0x00, 0x10, 0x00, 0x20, 0xFF, 0x7F, 0x01, 0x80, 0x00, 0x00, 0x00, 0x00, 0xAB, 0xCD, 0xEF,
        0x01,
    ];
    let frame = AudioFrame { timestamp_us: 1_000_000, pcm_data: pcm.clone() };
    let mut buf = Vec::new();
    audio_ipc::write_audio_frame(&mut buf, &frame);
    let mut cursor = ByteCursor::new(buf);
    match audio_ipc::read_message(&mut cursor).unwrap().unwrap() {
        audio_ipc::Message::AudioFrame(decoded) => {
            assert_eq!(decoded.timestamp_us, 1_000_000);
            assert_eq!(decoded.pcm_data, pcm);
        }
        other => panic!("expected AudioFrame, got {other:?}"),
    }
}

#[test]
fn lib_round_trip_error() {
    let msg_text = "device disconnected";
    let mut buf = Vec::new();
    audio_ipc::write_error(&mut buf, msg_text);
    let mut cursor = ByteCursor::new(buf);
    match audio_ipc::read_message(&mut cursor).unwrap().unwrap() {
        audio_ipc::Message::Error(decoded) => assert_eq!(decoded, msg_text),
        other => panic!("expected Error, got {other:?}"),
    }
}

#[test]
fn lib_read_message_returns_none_on_eof() {
    let mut cursor = ByteCursor::new(Vec::new());
    assert!(audio_ipc::read_message(&mut cursor).unwrap().is_none());
}

#[test]
fn lib_sequential_messages() {
    let mut buf = Vec::new();
    audio_ipc::write_audio_params(
        &mut buf,
        &AudioParams { sample_rate: 44100, channels: 1, bits_per_sample: 16 },
    );
    audio_ipc::write_audio_frame(
        &mut buf,
        &AudioFrame { timestamp_us: 500_000, pcm_data: vec![0x01, 0x02, 0x03, 0x04] },
    );
    audio_ipc::write_error(&mut buf, "test error");
    let mut cursor = ByteCursor::new(buf);
    assert!(matches!(audio_ipc::read_message(&mut cursor).unwrap(), Some(audio_ipc::Message::AudioParams(_))));
    assert!(matches!(audio_ipc::read_message(&mut cursor).unwrap(), Some(audio_ipc::Message::AudioFrame(_))));
    assert!(matches!(audio_ipc::read_message(&mut cursor).unwrap(), Some(audio_ipc::Message::Error(_))));
    assert!(audio_ipc::read_message(&mut cursor).unwrap().is_none());
}

#[test]
fn empty_pcm_frame() {
    let frame = AudioFrame { timestamp_us: 0, pcm_data: vec![] };
    let mut buf = Vec::new();
    audio_ipc::write_audio_frame(&mut buf, &frame);
    let mut cursor = ByteCursor::new(buf);
    match audio_ipc::read_message(&mut cursor).unwrap().unwrap() {
        audio_ipc::Message::AudioFrame(decoded) => {
            assert_eq!(decoded.timestamp_us, 0);
            assert!(decoded.pcm_data.is_empty());
        }
        other => panic!("expected AudioFrame, got {other:?}"),
    }
}

#[test]
fn audio_wire_layout_is_exact() {
    let mut buf = Vec::new();
    audio_ipc::write_audio_params(&mut buf, &AudioParams { sample_rate: 48000, channels: 2, bits_per_sample: 16 });
    assert_eq!(buf, vec![0x10, 6, 0, 0, 0, 0x80, 0xBB, 0, 0, 2, 16]);
}

#[test]
fn audio_truncated_message_is_an_error() {
    let mut buf = Vec::new();
    audio_ipc::write_audio_frame(&mut buf, &AudioFrame { timestamp_us: 7, pcm_data: vec![1, 2, 3] });
    buf.pop();
    let mut cursor = ByteCursor::new(buf);
    assert!(matches!(audio_ipc::read_message(&mut cursor), Err(WireError::UnexpectedEof)));
    let mut cursor = ByteCursor::new(vec![0x10, 1, 0]);
    assert!(matches!(audio_ipc::read_message(&mut cursor), Err(WireError::UnexpectedEof)));
    // a whole envelope whose payload is too short for its kind
    let mut cursor = ByteCursor::new(vec![0x10, 2, 0, 0, 0, 0x80, 0xBB]);
    assert!(matches!(audio_ipc::read_message(&mut cursor), Err(WireError::TruncatedPayload)));
}

#[test]
fn audio_unknown_message_type_is_an_error() {
    let mut cursor = ByteCursor::new(vec![0x42, 0, 0, 0, 0]);
    assert!(matches!(audio_ipc::read_message(&mut cursor), Err(WireError::UnknownMessageType(0x42))));
}

#[test]
fn audio_invalid_utf8_error_text_is_an_error() {
    let mut cursor = ByteCursor::new(vec![0xFF, 2, 0, 0, 0, 0xC3, 0x28]);
    assert!(matches!(audio_ipc::read_message(&mut cursor), Err(WireError::InvalidUtf8)));
}

// ── video ──────────────────────────────────────────────────────────────────

#[test]
fn round_trip_codec_params() {
    let params = CodecParams {
        sps: vec![0x67, 0x42, 0xC0, 0x1E, 0xD9, 0x00, 0xA0, 0x47, 0xFE, 0xC8],
        pps: vec![0x68, 0xCE, 0x38, 0x80],
        width: 1920,
        height: 1200,
    };
    let mut buf = Vec::new();
    video_ipc::write_codec_params(&mut buf, &params);
    let mut cursor = ByteCursor::new(buf);
    match video_ipc::read_message(&mut cursor).unwrap().unwrap() {
        video_ipc::Message::CodecParams(decoded) => {
            assert_eq!(decoded.width, 1920);
            assert_eq!(decoded.height, 1200);
            assert_eq!(decoded.sps, params.sps);
            assert_eq!(decoded.pps, params.pps);
        }
        other => panic!("expected CodecParams, got {other:?}"),
    }
}

#[test]
fn round_trip_frame() {
    let frame = FrameMessage {
        timestamp_us: 16_667,
        is_keyframe: true,
        nal_units: vec![
            NALUnit { unit_type: NALUnitType::SPS, data: vec![0x00, 0x00, 0x00, 0x01, 0x67, 0x42] },
            NALUnit { unit_type: NALUnitType::PPS, data: vec![0x00, 0x00, 0x00, 0x01, 0x68, 0xCE] },
            NALUnit {
                unit_type: NALUnitType::IDR,
                data: vec![0x00, 0x00, 0x00, 0x01, 0x65, 0x88, 0x80, 0x40],
            },
        ],
    };
    let mut buf = Vec::new();
    video_ipc::write_frame(&mut buf, &frame);
    let mut cursor = ByteCursor::new(buf);
    match video_ipc::read_message(&mut cursor).unwrap().unwrap() {
        video_ipc::Message::Frame(decoded) => {
            assert_eq!(decoded.timestamp_us, 16_667);
            assert!(decoded.is_keyframe);
            assert_eq!(decoded.nal_units.len(), 3);
            assert_eq!(decoded.nal_units[0].unit_type, NALUnitType::SPS);
            assert_eq!(decoded.nal_units[1].unit_type, NALUnitType::PPS);
            assert_eq!(decoded.nal_units[2].unit_type, NALUnitType::IDR);
            assert_eq!(decoded.nal_units[2].data, frame.nal_units[2].data);
        }
        other => panic!("expected Frame, got {other:?}"),
    }
}

#[test]
fn capture_round_trip_error() {
    let msg_text = "capture session lost: window closed";
    let mut buf = Vec::new();
    video_ipc::write_error(&mut buf, msg_text);
    let mut cursor = ByteCursor::new(buf);
    match video_ipc::read_message(&mut cursor).unwrap().unwrap() {
        video_ipc::Message::Error(decoded) => assert_eq!(decoded, msg_text),
        other => panic!("expected Error, got {other:?}"),
    }
}

#[test]
fn capture_read_message_returns_none_on_eof() {
    let mut cursor = ByteCursor::new(Vec::new());
    let msg = video_ipc::read_message(&mut cursor).unwrap();
    assert!(msg.is_none());
}

#[test]
fn capture_sequential_messages() {
    let mut buf = Vec::new();
    video_ipc::write_codec_params(
        &mut buf,
        &CodecParams { sps: vec![0x67], pps: vec![0x68], width: 640, height: 480 },
    );
    video_ipc::write_frame(
        &mut buf,
        &FrameMessage {
            timestamp_us: 0,
            is_keyframe: true,
            nal_units: vec![NALUnit { unit_type: NALUnitType::IDR, data: vec![0x00, 0x00, 0x01, 0x65] }],
        },
    );
    video_ipc::write_error(&mut buf, "test error");
    let mut cursor = ByteCursor::new(buf);
    assert!(matches!(video_ipc::read_message(&mut cursor).unwrap(), Some(video_ipc::Message::CodecParams(_))));
    assert!(matches!(video_ipc::read_message(&mut cursor).unwrap(), Some(video_ipc::Message::Frame(_))));
    assert!(matches!(video_ipc::read_message(&mut cursor).unwrap(), Some(video_ipc::Message::Error(_))));
    assert!(video_ipc::read_message(&mut cursor).unwrap().is_none());
}

#[test]
fn nal_type_from_header_uses_low_five_bits() {
    assert_eq!(NALUnitType::from_header(0x65), Some(NALUnitType::IDR));
    assert_eq!(NALUnitType::from_header(0x67), Some(NALUnitType::SPS));
    assert_eq!(NALUnitType::from_header(0x68), Some(NALUnitType::PPS));
    assert_eq!(NALUnitType::from_header(0x41), Some(NALUnitType::NonIDR));
    assert_eq!(NALUnitType::from_header(0x06), None);
    assert_eq!(NALUnitType::IDR.code(), 5);
}

#[test]
fn unknown_nal_type_in_frame_is_an_error() {
    // frame: ts 0, keyframe 0, one unit of type 9
    let mut payload = vec![0u8; 8];
    payload.push(0);
    payload.extend_from_slice(&1u32.to_le_bytes());
    payload.push(9);
    payload.extend_from_slice(&0u32.to_le_bytes());
    let mut buf = vec![0x02];
    buf.extend_from_slice(&(payload.len() as u32).to_le_bytes());
    buf.extend_from_slice(&payload);
    let mut cursor = ByteCursor::new(buf);
    assert!(matches!(video_ipc::read_message(&mut cursor), Err(WireError::UnknownNalType(9))));
}

// ── keystroke batches ──────────────────────────────────────────────────────

#[test]
fn lib_round_trip_batch() {
    let batch = Batch { t: 1_710_590_400_123_456, c: 5 };
    let mut buf = Vec::new();
    kpm_ipc::write_batch(&mut buf, &batch);
    assert_eq!(buf.len(), BATCH_SIZE);
    let mut cursor = ByteCursor::new(buf);
    let decoded = kpm_ipc::read_batch(&mut cursor).unwrap().unwrap();
    assert_eq!(decoded, batch);
}

#[test]
fn lib_round_trip_zero_count() {
    let batch = Batch { t: 0, c: 0 };
    let mut buf = Vec::new();
    kpm_ipc::write_batch(&mut buf, &batch);
    let mut cursor = ByteCursor::new(buf);
    let decoded = kpm_ipc::read_batch(&mut cursor).unwrap().unwrap();
    assert_eq!(decoded, batch);
}

#[test]
fn round_trip_max_values() {
    let batch = Batch { t: u64::MAX, c: u32::MAX };
    let mut buf = Vec::new();
    kpm_ipc::write_batch(&mut buf, &batch);
    let mut cursor = ByteCursor::new(buf);
    let decoded = kpm_ipc::read_batch(&mut cursor).unwrap().unwrap();
    assert_eq!(decoded, batch);
}

#[test]
fn lib_sequential_batches() {
    let batches = vec![Batch { t: 1000, c: 3 }, Batch { t: 2000, c: 0 }, Batch { t: 3000, c: 10 }];
    let mut buf = Vec::new();
    for b in &batches {
        kpm_ipc::write_batch(&mut buf, b);
    }
    assert_eq!(buf.len(), BATCH_SIZE * 3);
    let mut cursor = ByteCursor::new(buf);
    for expected in &batches {
        let decoded = kpm_ipc::read_batch(&mut cursor).unwrap().unwrap();
        assert_eq!(&decoded, expected);
    }
    assert!(kpm_ipc::read_batch(&mut cursor).unwrap().is_none());
}

#[test]
fn eof_returns_none() {
    let mut cursor = ByteCursor::new(Vec::<u8>::new());
    assert!(kpm_ipc::read_batch(&mut cursor).unwrap().is_none());
}

#[test]
fn partial_batch_is_unexpected_eof() {
    let mut cursor = ByteCursor::new(vec![1, 2, 3, 4, 5]);
    assert!(matches!(kpm_ipc::read_batch(&mut cursor), Err(WireError::UnexpectedEof)));
}

#[test]
fn batch_layout_is_little_endian() {
    let mut buf = Vec::new();
    kpm_ipc::write_batch(&mut buf, &Batch { t: 0x0102030405060708, c: 0x0A0B0C0D });
    assert_eq!(buf, vec![8, 7, 6, 5, 4, 3, 2, 1, 0x0D, 0x0C, 0x0B, 0x0A]);
}

#[test]
fn json_format_is_compact() {
    let batch = kpm_json::Batch { t: 100, c: 7 };
    let mut buf = Vec::new();
    kpm_json::write_batch(&mut buf, &batch);
    let line = std::str::from_utf8(&buf).unwrap().trim_end();
    assert_eq!(line, r#"{"t":100,"c":7}"#);
}

#[test]
fn json_line_is_newline_terminated_and_valid() {
    let mut buf = Vec::new();
    kpm_json::write_batch(&mut buf, &kpm_json::Batch { t: u64::MAX, c: u32::MAX });
    let text = std::str::from_utf8(&buf).unwrap();
    assert!(text.ends_with('\n'));
    let v: serde_json::Value = serde_json::from_str(text.trim_end()).unwrap();
    assert_eq!(v["t"].as_u64(), Some(u64::MAX));
    assert_eq!(v["c"].as_u64(), Some(u32::MAX as u64));
}

/// Reads a JSON batch line back through serde_json.
fn parse_json_line(line: &str) -> kpm_json::Batch {
    let v: serde_json::Value = serde_json::from_str(line).unwrap();
    kpm_json::Batch { t: v["t"].as_u64().unwrap(), c: u32::try_from(v["c"].as_u64().unwrap()).unwrap() }
}

#[test]
fn json_round_trip_batch() {
    let batch = kpm_json::Batch { t: 1_710_590_400_123_456, c: 5 };
    let mut buf = Vec::new();
    kpm_json::write_batch(&mut buf, &batch);
    let line = std::str::from_utf8(&buf).unwrap().trim_end();
    assert_eq!(parse_json_line(line), batch);
}

#[test]
fn json_round_trip_zero_count() {
    let batch = kpm_json::Batch { t: 0, c: 0 };
    let mut buf = Vec::new();
    kpm_json::write_batch(&mut buf, &batch);
    let line = std::str::from_utf8(&buf).unwrap().trim_end();
    assert_eq!(parse_json_line(line), batch);
}

#[test]
fn round_trip_high_count() {
    let batch = kpm_json::Batch { t: u64::MAX, c: u32::MAX };
    let mut buf = Vec::new();
    kpm_json::write_batch(&mut buf, &batch);
    let line = std::str::from_utf8(&buf).unwrap().trim_end();
    assert_eq!(parse_json_line(line), batch);
}

#[test]
fn json_sequential_batches() {
    let batches = vec![
        kpm_json::Batch { t: 1000, c: 3 },
        kpm_json::Batch { t: 2000, c: 0 },
        kpm_json::Batch { t: 3000, c: 10 },
    ];
    let mut buf = Vec::new();
    for b in &batches {
        kpm_json::write_batch(&mut buf, b);
    }
    let text = std::str::from_utf8(&buf).unwrap();
    let decoded: Vec<kpm_json::Batch> = text.lines().map(parse_json_line).collect();
    assert_eq!(decoded, batches);
}
