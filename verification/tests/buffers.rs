use liveui::audio_buffer::AudioBuffer;
use liveui::audio_ipc::{AudioFrame, AudioParams};
use liveui::kpm_calculator::KpmCalculator;
use liveui::video_buffer::StreamBuffer;
use liveui::video_ipc::{CodecParams, FrameMessage, NALUnit, NALUnitType};

fn make_chunk(ts: u64) -> AudioFrame {
    AudioFrame { timestamp_us: ts, pcm_data: vec![0x01, 0x02, 0x03, 0x04] }
}

fn make_frame(is_keyframe: bool, timestamp: u64) -> FrameMessage {
    let nal_type = if is_keyframe { NALUnitType::IDR } else { NALUnitType::NonIDR };
    FrameMessage {
        timestamp_us: timestamp,
        is_keyframe,
        nal_units: vec![NALUnit { unit_type: nal_type, data: vec![0x00, 0x00, 0x01, 0x65] }],
    }
}

/// The rate the server reports: keystrokes per minute over the window.
fn kpm_of(calc: &KpmCalculator) -> f64 {
    match calc.window_totals() {
        Some((total, span_us)) => (total as f64 / (span_us as f64 / 1_000_000.0)) * 60.0,
        None => 0.0,
    }
}

// ── audio buffer ───────────────────────────────────────────────────────────

#[test]
fn buffer_push_and_retrieve() {
    let mut buf = AudioBuffer::new(4);
    buf.push_chunk(&make_chunk(1000));
    buf.push_chunk(&make_chunk(2000));
    let chunks = buf.get_chunks_after(0);
    assert_eq!(chunks.len(), 2);
    assert_eq!(chunks[0].sequence, 1);
    assert_eq!(chunks[1].sequence, 2);
}

#[test]
fn generation_reset() {
    let mut buf = AudioBuffer::new(4);
    buf.push_chunk(&make_chunk(1000));
    buf.push_chunk(&make_chunk(2000));
    let chunks = buf.get_chunks_after(100);
    assert_eq!(chunks.len(), 2);
}

#[test]
fn buffer_circular_wrap() {
    let mut buf = AudioBuffer::new(3);
    for i in 0..5 {
        buf.push_chunk(&make_chunk((i + 1) * 1000));
    }
    let chunks = buf.get_chunks_after(0);
    assert_eq!(chunks.len(), 3);
    assert_eq!(chunks[0].sequence, 3);
}

#[test]
fn buffer_reset_clears_everything() {
    let mut buf = AudioBuffer::new(4);
    buf.push_chunk(&make_chunk(1000));
    buf.set_audio_params(AudioParams { sample_rate: 48000, channels: 2, bits_per_sample: 16 });
    buf.reset();
    assert!(buf.get_audio_params().is_none());
    assert!(buf.get_chunks_after(0).is_empty());
    buf.push_chunk(&make_chunk(5000));
    assert_eq!(buf.get_chunks_after(0)[0].sequence, 1);
}

#[test]
fn audio_chunk_payload_is_timestamp_then_pcm() {
    let mut buf = AudioBuffer::new(2);
    buf.push_chunk(&AudioFrame { timestamp_us: 0x0102, pcm_data: vec![9, 8] });
    let chunks = buf.get_chunks_after(0);
    assert_eq!(chunks[0].payload, vec![0x02, 0x01, 0, 0, 0, 0, 0, 0, 9, 8]);
}

#[test]
fn audio_read_after_newest_gets_only_new_chunk() {
    let mut buf = AudioBuffer::new(4);
    buf.push_chunk(&make_chunk(1));
    buf.push_chunk(&make_chunk(2));
    buf.push_chunk(&make_chunk(3));
    let chunks = buf.get_chunks_after(2);
    assert_eq!(chunks.len(), 1);
    assert_eq!(chunks[0].sequence, 3);
    assert!(buf.get_chunks_after(3).is_empty());
}

// ── video buffer ───────────────────────────────────────────────────────────

#[test]
fn video_buffer_push_and_retrieve() {
    let mut buf = StreamBuffer::new(4);
    buf.push_frame(&make_frame(true, 1000));
    buf.push_frame(&make_frame(false, 2000));
    let frames = buf.get_frames_after(0);
    assert_eq!(frames.len(), 2);
    assert_eq!(frames[0].sequence, 1);
    assert_eq!(frames[1].sequence, 2);
}

#[test]
fn keyframe_gating_on_first_request() {
    let mut buf = StreamBuffer::new(4);
    buf.push_frame(&make_frame(false, 1000));
    buf.push_frame(&make_frame(false, 2000));
    buf.push_frame(&make_frame(true, 3000));
    buf.push_frame(&make_frame(false, 4000));
    let frames = buf.get_frames_after(0);
    assert_eq!(frames.len(), 2);
    assert_eq!(frames[0].sequence, 3);
    assert!(frames[0].is_keyframe);
    assert_eq!(frames[1].sequence, 4);
}

#[test]
fn video_buffer_circular_wrap() {
    let mut buf = StreamBuffer::new(3);
    for i in 0..5 {
        buf.push_frame(&make_frame(i == 0 || i == 3, (i + 1) * 1000));
    }
    let frames = buf.get_frames_after(0);
    assert_eq!(frames[0].sequence, 4);
    assert!(frames[0].is_keyframe);
}

#[test]
fn get_after_filters_by_sequence() {
    let mut buf = StreamBuffer::new(4);
    buf.push_frame(&make_frame(true, 1000));
    buf.push_frame(&make_frame(false, 2000));
    buf.push_frame(&make_frame(false, 3000));
    let frames = buf.get_frames_after(2);
    assert_eq!(frames.len(), 1);
    assert_eq!(frames[0].sequence, 3);
}

#[test]
fn video_buffer_reset_clears_everything() {
    let mut buf = StreamBuffer::new(4);
    buf.push_frame(&make_frame(true, 1000));
    buf.set_codec_params(CodecParams { sps: vec![0x67], pps: vec![0x68], width: 1920, height: 1080 });
    buf.reset();
    assert!(buf.get_codec_params().is_none());
    assert!(buf.get_frames_after(0).is_empty());
    buf.push_frame(&make_frame(true, 5000));
    assert_eq!(buf.get_frames_after(0)[0].sequence, 1);
}

#[test]
fn sequence_monotonicity() {
    let mut buf = StreamBuffer::new(10);
    for i in 0..20 {
        buf.push_frame(&make_frame(i % 5 == 0, i * 1000));
    }
    let frames = buf.get_frames_after(10);
    for pair in frames.windows(2) {
        assert!(pair[1].sequence > pair[0].sequence);
    }
}

#[test]
fn video_frame_payload_layout() {
    let mut buf = StreamBuffer::new(2);
    buf.push_frame(&make_frame(true, 7));
    let frames = buf.get_frames_after(0);
    assert_eq!(frames[0].timestamp_us, 7);
    assert_eq!(
        frames[0].payload,
        vec![7, 0, 0, 0, 0, 0, 0, 0, 1, 0, 0, 0, 5, 4, 0, 0, 0, 0x00, 0x00, 0x01, 0x65]
    );
}

#[test]
fn no_keyframe_means_nothing_for_first_request() {
    let mut buf = StreamBuffer::new(4);
    buf.push_frame(&make_frame(false, 1));
    buf.push_frame(&make_frame(false, 2));
    assert!(buf.get_frames_after(0).is_empty());
    assert_eq!(buf.get_frames_after(1).len(), 1);
}

#[test]
fn video_accepts_frame_until_exhausted() {
    let buf = StreamBuffer::new(2);
    assert!(buf.accepts_frame());
    let empty = StreamBuffer::new(0);
    assert!(!empty.accepts_frame());
}

// ── keystroke rate ─────────────────────────────────────────────────────────

#[test]
fn empty_returns_zero() {
    let calc = KpmCalculator::new(5000, 50);
    assert_eq!(kpm_of(&calc), 0.0);
}

#[test]
fn single_entry_returns_zero() {
    let mut calc = KpmCalculator::new(5000, 50);
    calc.push_batch(1_000_000, 5);
    assert_eq!(kpm_of(&calc), 0.0);
}

#[test]
fn two_entries_one_second_apart() {
    let mut calc = KpmCalculator::new(5000, 50);
    calc.push_batch(1_000_000, 10);
    calc.push_batch(2_000_000, 10);
    let kpm = kpm_of(&calc);
    assert!((kpm - 1200.0).abs() < 1.0);
}

#[test]
fn window_eviction() {
    let mut calc = KpmCalculator::new(1000, 50);
    for i in 0..40 {
        calc.push_batch(i * 50_000, 1);
    }
    assert!(calc.len() <= 30);
}

#[test]
fn reset_clears_state() {
    let mut calc = KpmCalculator::new(5000, 50);
    calc.push_batch(1_000_000, 5);
    calc.push_batch(2_000_000, 5);
    calc.reset();
    assert_eq!(kpm_of(&calc), 0.0);
    assert_eq!(calc.len(), 0);
}

#[test]
fn window_totals_exact_values() {
    let mut calc = KpmCalculator::new(5000, 50);
    calc.push_batch(1_000_000, 3);
    calc.push_batch(1_100_000, 4);
    // 100 ms of data is too little
    assert_eq!(calc.window_totals(), None);
    calc.push_batch(1_300_000, 5);
    assert_eq!(calc.window_totals(), Some((12, 300_000)));
}

#[test]
fn window_keeps_exactly_the_last_second() {
    let mut calc = KpmCalculator::new(1000, 50);
    for i in 0..40u64 {
        calc.push_batch(i * 50_000, 1);
    }
    // newest at 1.95 s; cutoff 0.95 s keeps stamps 0.95 .. 1.95 s
    assert_eq!(calc.len(), 21);
    assert!(calc.span_defined());
}

#[test]
fn hard_cap_limits_batches() {
    let mut calc = KpmCalculator::new(1000, 500);
    // cap is 1000 / 500 + 10 = 12; all stamps are equal so nothing ages out
    for _ in 0..20 {
        calc.push_batch(5_000_000, 1);
    }
    assert_eq!(calc.len(), 12);
}

// ── read ranges after a push history ───────────────────────────────────────

#[test]
fn audio_read_range_after_wrap() {
    let mut buf = AudioBuffer::new(3);
    for i in 0..5u64 {
        buf.push_chunk(&make_chunk((i + 1) * 1000));
    }
    let seqs = |after: u32| buf.get_chunks_after(after).iter().map(|c| c.sequence).collect::<Vec<_>>();
    assert_eq!(seqs(1), vec![3, 4, 5]);
    assert_eq!(seqs(3), vec![4, 5]);
    assert_eq!(seqs(5), Vec::<u32>::new());
    assert_eq!(seqs(9), vec![3, 4, 5]);
    let chunks = buf.get_chunks_after(3);
    assert_eq!(chunks[0].payload[..8], 4000u64.to_le_bytes());
}

#[test]
fn video_read_range_after_wrap() {
    let mut buf = StreamBuffer::new(3);
    for i in 0..5u64 {
        buf.push_frame(&make_frame(i == 3, (i + 1) * 1000));
    }
    let seqs = |after: u32| buf.get_frames_after(after).iter().map(|f| f.sequence).collect::<Vec<_>>();
    assert_eq!(seqs(0), vec![4, 5]);
    assert_eq!(seqs(1), vec![3, 4, 5]);
    assert_eq!(seqs(4), vec![5]);
    assert_eq!(seqs(5), Vec::<u32>::new());
    assert_eq!(seqs(9), Vec::<u32>::new());
}

#[test]
fn video_first_request_without_keyframe_is_empty() {
    let mut buf = StreamBuffer::new(3);
    for i in 0..3u64 {
        buf.push_frame(&make_frame(false, i * 1000));
    }
    assert!(buf.get_frames_after(0).is_empty());
    assert_eq!(buf.get_frames_after(1).len(), 2);
}

#[test]
fn kpm_keeps_recent_suffix() {
    let mut calc = KpmCalculator::new(1000, 500);
    for t in [0u64, 500_000, 1_200_000, 1_900_000] {
        calc.push_batch(t, 1);
    }
    // cutoff 900_000: the first two batches left the window
    assert_eq!(calc.len(), 2);
    for t in [2_000_000u64, 2_100_000, 2_200_000] {
        calc.push_batch(t, 1);
    }
    // capacity 1000 / 500 + 10 = 12, window from 1_200_000: five batches
    assert_eq!(calc.len(), 5);
}
