//! IPC wire protocol of the audio capture process.
//!
//! Raw PCM audio travels from the capture process to the server over a
//! byte stream, one envelope per message:
//!
//! ```text
//! [u8:  message_type]
//! [u32 LE: payload_length]
//! [payload_length bytes: payload]
//! ```
//!
//! Audio message kinds use the `0x1x` range so they never collide with the
//! video kinds (`0x01`–`0x02`); `0xFF` is the shared error kind.

use vstd::prelude::*;
use vstd::bytes::*;
use vstd::slice::{slice_subrange, slice_to_vec};
use vstd::utf8::*;

use crate::text::string_from_utf8;
use crate::wire::{ByteCursor, EnvelopeRead, WireError, envelope_bytes, envelope_incomplete, envelope_payload, envelope_size, extend_bytes, lemma_envelope_decodes, push_envelope_header, read_envelope};

verus! {

broadcast use vstd::seq_lib::group_seq_properties;

/// Kind byte of each audio IPC message.
#[derive(Debug, Clone, Copy, PartialEq, Eq)]
pub enum MessageType {
    /// Audio format parameters, sent once after device initialization.
    AudioParams,
    /// One chunk of raw PCM audio with a wall-clock timestamp.
    AudioFrame,
    /// Non-fatal error description (UTF-8).
    Error,
}

impl MessageType {
    pub open spec fn spec_code(self) -> u8 {
        match self {
            MessageType::AudioParams => 0x10,
            MessageType::AudioFrame => 0x11,
            MessageType::Error => 0xFF,
        }
    }

    /// The kind byte written on the wire.
    pub fn code(&self) -> (c: u8)
        ensures
            c == self.spec_code(),
    {
        match self {
            MessageType::AudioParams => 0x10,
            MessageType::AudioFrame => 0x11,
            MessageType::Error => 0xFF,
        }
    }
}

/// Audio format parameters sent once at capture start.
#[derive(Debug, Clone, Copy, PartialEq, Eq)]
pub struct AudioParams {
    /// Samples per second (e.g. 48000).
    pub sample_rate: u32,
    /// Number of interleaved channels (e.g. 2 for stereo).
    pub channels: u8,
    /// Bits per sample (e.g. 16 for s16le).
    pub bits_per_sample: u8,
}

/// One chunk of raw interleaved PCM audio.
#[derive(Debug, Clone)]
pub struct AudioFrame {
    /// Wall-clock timestamp in microseconds since the Unix epoch.
    pub timestamp_us: u64,
    /// Raw interleaved PCM samples.
    pub pcm_data: Vec<u8>,
}

/// A parsed audio IPC message.
#[derive(Debug, Clone)]
pub enum Message {
    AudioParams(AudioParams),
    AudioFrame(AudioFrame),
    Error(String),
}

/// The mathematical content of an audio IPC message.
pub enum MessageView {
    AudioParams(AudioParams),
    AudioFrame(u64, Seq<u8>),
    Error(Seq<char>),
}

impl View for Message {
    type V = MessageView;

    open spec fn view(&self) -> MessageView {
        match self {
            Message::AudioParams(p) => MessageView::AudioParams(*p),
            Message::AudioFrame(f) => MessageView::AudioFrame(f.timestamp_us, f.pcm_data@),
            Message::Error(s) => MessageView::Error(s@),
        }
    }
}

// ── Wire encoding ───────────────────────────────────────────────────────────

/// Payload of an `AudioParams` message: `[u32 LE sample_rate][u8 channels][u8 bits]`.
pub open spec fn params_payload(p: AudioParams) -> Seq<u8> {
    spec_u32_to_le_bytes(p.sample_rate) + seq![p.channels, p.bits_per_sample]
}

/// Payload of an `AudioFrame` message: `[u64 LE timestamp_us][PCM bytes]`.
pub open spec fn frame_payload(timestamp_us: u64, pcm: Seq<u8>) -> Seq<u8> {
    spec_u64_to_le_bytes(timestamp_us) + pcm
}

/// Kind byte and payload of a message.
pub open spec fn message_kind(m: MessageView) -> u8 {
    match m {
        MessageView::AudioParams(_) => 0x10,
        MessageView::AudioFrame(_, _) => 0x11,
        MessageView::Error(_) => 0xFF,
    }
}

pub open spec fn message_payload(m: MessageView) -> Seq<u8> {
    match m {
        MessageView::AudioParams(p) => params_payload(p),
        MessageView::AudioFrame(ts, pcm) => frame_payload(ts, pcm),
        MessageView::Error(text) => encode_utf8(text),
    }
}

/// The bytes written for one message.
pub open spec fn encode_message(m: MessageView) -> Seq<u8> {
    envelope_bytes(message_kind(m), message_payload(m))
}

/// Whether a message's payload length fits the 32-bit length field.
pub open spec fn fits_envelope(m: MessageView) -> bool {
    message_payload(m).len() <= u32::MAX
}

/// Writes an `AudioParams` message.
pub fn write_audio_params(w: &mut Vec<u8>, params: &AudioParams)
    ensures
        final(w)@ == old(w)@ + encode_message(MessageView::AudioParams(*params)),
{
    let ghost start = w@;
    let payload_len: usize = 4 + 1 + 1;
    push_envelope_header(w, MessageType::AudioParams.code(), payload_len);
    let sr = u32_to_le_bytes(params.sample_rate);
    extend_bytes(w, sr.as_slice());
    w.push(params.channels);
    w.push(params.bits_per_sample);
    proof {
        lemma_auto_spec_u32_to_from_le_bytes();
        assert(params_payload(*params).len() == 6);
        assert(w@ == start + encode_message(MessageView::AudioParams(*params)));
    }
}

/// Writes an `AudioFrame` message.
pub fn write_audio_frame(w: &mut Vec<u8>, frame: &AudioFrame)
    requires
        frame.pcm_data@.len() + 8 <= usize::MAX,
    ensures
        final(w)@ == old(w)@ + encode_message(
            MessageView::AudioFrame(frame.timestamp_us, frame.pcm_data@),
        ),
{
    let ghost start = w@;
    let payload_len = 8 + frame.pcm_data.len();
    push_envelope_header(w, MessageType::AudioFrame.code(), payload_len);
    let ts = u64_to_le_bytes(frame.timestamp_us);
    extend_bytes(w, ts.as_slice());
    extend_bytes(w, frame.pcm_data.as_slice());
    proof {
        lemma_auto_spec_u64_to_from_le_bytes();
        assert(frame_payload(frame.timestamp_us, frame.pcm_data@).len() == payload_len);
        assert(w@ == start + encode_message(
            MessageView::AudioFrame(frame.timestamp_us, frame.pcm_data@),
        ));
    }
}

/// Writes an `Error` message whose payload is the UTF-8 text of `message`.
pub fn write_error(w: &mut Vec<u8>, message: &str)
    ensures
        final(w)@ == old(w)@ + encode_message(MessageView::Error(message@)),
{
    let ghost start = w@;
    let payload = message.as_bytes();
    push_envelope_header(w, MessageType::Error.code(), payload.len());
    extend_bytes(w, payload);
    proof {
        assert(w@ == start + encode_message(MessageView::Error(message@)));
    }
}

// ── Wire decoding ───────────────────────────────────────────────────────────

/// The message a payload of the given kind decodes to.
pub open spec fn decode_payload(kind: u8, p: Seq<u8>) -> Result<MessageView, WireError> {
    if kind == 0x10 {
        if p.len() < 6 {
            Err(WireError::TruncatedPayload)
        } else {
            Ok(MessageView::AudioParams(AudioParams {
                sample_rate: spec_u32_from_le_bytes(p.subrange(0, 4)),
                channels: p[4],
                bits_per_sample: p[5],
            }))
        }
    } else if kind == 0x11 {
        if p.len() < 8 {
            Err(WireError::TruncatedPayload)
        } else {
            Ok(MessageView::AudioFrame(
                spec_u64_from_le_bytes(p.subrange(0, 8)),
                p.subrange(8, p.len() as int),
            ))
        }
    } else if kind == 0xFF {
        if valid_utf8(p) {
            Ok(MessageView::Error(decode_utf8(p)))
        } else {
            Err(WireError::InvalidUtf8)
        }
    } else {
        Err(WireError::UnknownMessageType(kind))
    }
}

/// What reading one message from the byte sequence `s` yields: `None` at
/// the end of the stream, the message, or why it cannot be decoded.
pub open spec fn spec_read_message(s: Seq<u8>) -> Result<Option<MessageView>, WireError> {
    if s.len() == 0 {
        Ok(None)
    } else if envelope_incomplete(s) {
        Err(WireError::UnexpectedEof)
    } else {
        match decode_payload(s[0], envelope_payload(s)) {
            Ok(m) => Ok(Some(m)),
            Err(e) => Err(e),
        }
    }
}

/// Number of bytes one read consumes from `s`.
pub open spec fn spec_read_consumed(s: Seq<u8>) -> nat {
    if s.len() == 0 {
        0
    } else if envelope_incomplete(s) {
        s.len()
    } else {
        envelope_size(s)
    }
}

pub open spec fn read_result_view(r: Result<Option<Message>, WireError>) -> Result<
    Option<MessageView>,
    WireError,
> {
    match r {
        Ok(Some(m)) => Ok(Some(m@)),
        Ok(None) => Ok(None),
        Err(e) => Err(e),
    }
}

fn read_audio_params_payload(data: &[u8]) -> (r: Result<AudioParams, WireError>)
    ensures
        match decode_payload(0x10, data@) {
            Ok(MessageView::AudioParams(p)) => r == Ok::<AudioParams, WireError>(p),
            Ok(_) => false,
            Err(e) => r == Err::<AudioParams, WireError>(e),
        },
{
    if data.len() < 6 {
        return Err(WireError::TruncatedPayload);
    }
    let sample_rate = u32_from_le_bytes(slice_subrange(data, 0, 4));
    Ok(AudioParams { sample_rate, channels: data[4], bits_per_sample: data[5] })
}

fn read_audio_frame_payload(data: &[u8]) -> (r: Result<AudioFrame, WireError>)
    ensures
        match decode_payload(0x11, data@) {
            Ok(MessageView::AudioFrame(ts, pcm)) => r matches Ok(f) && f.timestamp_us == ts
                && f.pcm_data@ == pcm,
            Ok(_) => false,
            Err(e) => r == Err::<AudioFrame, WireError>(e),
        },
{
    if data.len() < 8 {
        return Err(WireError::TruncatedPayload);
    }
    let timestamp_us = u64_from_le_bytes(slice_subrange(data, 0, 8));
    let pcm_data = slice_to_vec(slice_subrange(data, 8, data.len()));
    Ok(AudioFrame { timestamp_us, pcm_data })
}

fn read_error_payload(data: Vec<u8>) -> (r: Result<String, WireError>)
    ensures
        match decode_payload(0xFF, data@) {
            Ok(MessageView::Error(text)) => r matches Ok(s) && s@ == text,
            Ok(_) => false,
            Err(e) => r == Err::<String, WireError>(e),
        },
{
    match string_from_utf8(data) {
        Some(s) => Ok(s),
        None => Err(WireError::InvalidUtf8),
    }
}

/// Reads the next audio IPC message from `r`.
///
/// Returns `Ok(None)` at a clean end of stream (no byte left between
/// messages), the message otherwise, and an error on malformed data or on
/// a stream that stops inside a message.
pub fn read_message(r: &mut ByteCursor) -> (res: Result<Option<Message>, WireError>)
    ensures
        final(r).data() == old(r).data(),
        read_result_view(res) == spec_read_message(old(r).remaining()),
        final(r).pos() == old(r).pos() + spec_read_consumed(old(r).remaining()),
{
    match read_envelope(r) {
        Err(e) => Err(e),
        Ok(EnvelopeRead::End) => Ok(None),
        Ok(EnvelopeRead::Message(kind, payload)) => {
            if kind == 0x10 {
                match read_audio_params_payload(payload.as_slice()) {
                    Ok(p) => Ok(Some(Message::AudioParams(p))),
                    Err(e) => Err(e),
                }
            } else if kind == 0x11 {
                match read_audio_frame_payload(payload.as_slice()) {
                    Ok(f) => Ok(Some(Message::AudioFrame(f))),
                    Err(e) => Err(e),
                }
            } else if kind == 0xFF {
                match read_error_payload(payload) {
                    Ok(text) => Ok(Some(Message::Error(text))),
                    Err(e) => Err(e),
                }
            } else {
                Err(WireError::UnknownMessageType(kind))
            }
        },
    }
}

// ── Laws ────────────────────────────────────────────────────────────────────

/// Every message whose payload fits the length field reads back as itself
/// from the bytes written for it, whatever follows in the stream, and the
/// read consumes exactly those bytes.
pub proof fn lemma_round_trip(m: MessageView, rest: Seq<u8>)
    requires
        fits_envelope(m),
    ensures
        spec_read_message(encode_message(m) + rest) == Ok::<Option<MessageView>, WireError>(
            Some(m),
        ),
        spec_read_consumed(encode_message(m) + rest) == encode_message(m).len(),
{
    let s = encode_message(m) + rest;
    lemma_envelope_decodes(message_kind(m), message_payload(m), rest);
    lemma_auto_spec_u32_to_from_le_bytes();
    lemma_auto_spec_u64_to_from_le_bytes();
    let p = message_payload(m);
    match m {
        MessageView::AudioParams(a) => {
            assert(p.subrange(0, 4) == spec_u32_to_le_bytes(a.sample_rate));
        },
        MessageView::AudioFrame(ts, pcm) => {
            assert(p.subrange(0, 8) == spec_u64_to_le_bytes(ts));
            assert(p.subrange(8, p.len() as int) == pcm);
        },
        MessageView::Error(text) => {
            encode_utf8_valid_utf8(text);
            encode_utf8_decode_utf8(text);
        },
    }
}

/// An empty stream reads as its end.
pub proof fn lemma_empty_is_end()
    ensures
        spec_read_message(Seq::<u8>::empty()) == Ok::<Option<MessageView>, WireError>(None),
{
}

} // verus!
