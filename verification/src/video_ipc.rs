//! IPC wire protocol of the video capture process.
//!
//! Encoded H.264 frames travel from the capture process to the server over
//! a byte stream, one envelope per message:
//!
//! ```text
//! [u8:  message_type]
//! [u32 LE: payload_length]
//! [payload_length bytes: payload]
//! ```

use vstd::prelude::*;
use vstd::bytes::*;
use vstd::slice::{slice_subrange, slice_to_vec};
use vstd::utf8::*;

use crate::text::string_from_utf8;
use crate::wire::{
    ByteCursor, EnvelopeRead, WireError, envelope_bytes, envelope_incomplete, envelope_payload,
    envelope_size, extend_bytes, lemma_envelope_decodes, push_envelope_header, read_envelope,
};

verus! {

broadcast use vstd::seq_lib::group_seq_properties;

// ── H.264 NAL unit types ────────────────────────────────────────────────────

/// NAL unit types of a baseline-profile H.264 stream without B-frames.
///
/// The type is the 5-bit `nal_unit_type` field of ITU-T H.264 Table 7-1.
#[derive(Debug, Clone, Copy, PartialEq, Eq)]
pub enum NALUnitType {
    /// Non-IDR slice (inter-predicted P-frame), type 1.
    NonIDR,
    /// Instantaneous Decoder Refresh (keyframe), type 5.
    IDR,
    /// Sequence Parameter Set, type 7.
    SPS,
    /// Picture Parameter Set, type 8.
    PPS,
}

impl NALUnitType {
    pub open spec fn spec_code(self) -> u8 {
        match self {
            NALUnitType::NonIDR => 1,
            NALUnitType::IDR => 5,
            NALUnitType::SPS => 7,
            NALUnitType::PPS => 8,
        }
    }

    /// The numeric `nal_unit_type`.
    pub fn code(&self) -> (c: u8)
        ensures
            c == self.spec_code(),
    {
        match self {
            NALUnitType::NonIDR => 1,
            NALUnitType::IDR => 5,
            NALUnitType::SPS => 7,
            NALUnitType::PPS => 8,
        }
    }

    pub open spec fn spec_from_header(header: u8) -> Option<NALUnitType> {
        let t = header & 0x1F;
        if t == 1 {
            Some(NALUnitType::NonIDR)
        } else if t == 5 {
            Some(NALUnitType::IDR)
        } else if t == 7 {
            Some(NALUnitType::SPS)
        } else if t == 8 {
            Some(NALUnitType::PPS)
        } else {
            None
        }
    }

    /// The type encoded in the lower 5 bits of a NAL header byte (H.264
    /// section 7.3.1), or `None` for the types this stream never carries.
    pub fn from_header(header: u8) -> (r: Option<NALUnitType>)
        ensures
            r == Self::spec_from_header(header),
    {
        let t = header & 0x1F;
        if t == 1 {
            Some(NALUnitType::NonIDR)
        } else if t == 5 {
            Some(NALUnitType::IDR)
        } else if t == 7 {
            Some(NALUnitType::SPS)
        } else if t == 8 {
            Some(NALUnitType::PPS)
        } else {
            None
        }
    }

    /// A type's own code reads back as that type.
    pub proof fn lemma_code_round_trip(self)
        ensures
            Self::spec_from_header(self.spec_code()) == Some(self),
    {
        assert(1u8 & 0x1F == 1) by (bit_vector);
        assert(5u8 & 0x1F == 5) by (bit_vector);
        assert(7u8 & 0x1F == 7) by (bit_vector);
        assert(8u8 & 0x1F == 8) by (bit_vector);
    }
}

/// One encoded H.264 NAL unit.
#[derive(Debug, Clone)]
pub struct NALUnit {
    /// Type of this NAL unit.
    pub unit_type: NALUnitType,
    /// Raw NAL unit data including its Annex B start code.
    pub data: Vec<u8>,
}

impl View for NALUnit {
    type V = (NALUnitType, Seq<u8>);

    open spec fn view(&self) -> (NALUnitType, Seq<u8>) {
        (self.unit_type, self.data@)
    }
}

// ── IPC message types ───────────────────────────────────────────────────────

/// Kind byte of each IPC message.
#[derive(Debug, Clone, Copy, PartialEq, Eq)]
pub enum MessageType {
    /// Codec initialization parameters (SPS, PPS, resolution).
    CodecParams,
    /// One encoded video frame with its NAL units.
    Frame,
    /// Non-fatal error description (UTF-8).
    Error,
}

impl MessageType {
    pub open spec fn spec_code(self) -> u8 {
        match self {
            MessageType::CodecParams => 0x01,
            MessageType::Frame => 0x02,
            MessageType::Error => 0xFF,
        }
    }

    /// The kind byte written on the wire.
    pub fn code(&self) -> (c: u8)
        ensures
            c == self.spec_code(),
    {
        match self {
            MessageType::CodecParams => 0x01,
            MessageType::Frame => 0x02,
            MessageType::Error => 0xFF,
        }
    }
}

/// Codec parameters extracted from the H.264 stream.
#[derive(Debug, Clone)]
pub struct CodecParams {
    /// Sequence Parameter Set (raw NAL data without start code).
    pub sps: Vec<u8>,
    /// Picture Parameter Set (raw NAL data without start code).
    pub pps: Vec<u8>,
    /// Video width in pixels.
    pub width: u32,
    /// Video height in pixels.
    pub height: u32,
}

pub struct CodecParamsView {
    pub sps: Seq<u8>,
    pub pps: Seq<u8>,
    pub width: u32,
    pub height: u32,
}

impl View for CodecParams {
    type V = CodecParamsView;

    open spec fn view(&self) -> CodecParamsView {
        CodecParamsView { sps: self.sps@, pps: self.pps@, width: self.width, height: self.height }
    }
}

/// A single encoded frame.
#[derive(Debug, Clone)]
pub struct FrameMessage {
    /// Wall-clock timestamp in microseconds since the Unix epoch.
    pub timestamp_us: u64,
    /// Whether this frame contains an IDR NAL unit (keyframe).
    pub is_keyframe: bool,
    /// All NAL units that make up this frame.
    pub nal_units: Vec<NALUnit>,
}

pub struct FrameView {
    pub timestamp_us: u64,
    pub is_keyframe: bool,
    pub nal_units: Seq<(NALUnitType, Seq<u8>)>,
}

impl View for FrameMessage {
    type V = FrameView;

    open spec fn view(&self) -> FrameView {
        FrameView {
            timestamp_us: self.timestamp_us,
            is_keyframe: self.is_keyframe,
            nal_units: self.nal_units@.map_values(|n: NALUnit| n@),
        }
    }
}

/// A parsed IPC message from the capture process.
#[derive(Debug, Clone)]
pub enum Message {
    CodecParams(CodecParams),
    Frame(FrameMessage),
    Error(String),
}

pub enum MessageView {
    CodecParams(CodecParamsView),
    Frame(FrameView),
    Error(Seq<char>),
}

impl View for Message {
    type V = MessageView;

    open spec fn view(&self) -> MessageView {
        match self {
            Message::CodecParams(p) => MessageView::CodecParams(p@),
            Message::Frame(f) => MessageView::Frame(f@),
            Message::Error(s) => MessageView::Error(s@),
        }
    }
}

// ── Wire encoding ───────────────────────────────────────────────────────────

/// `[u16 LE width][u16 LE height][u16 LE sps_len][sps][u16 LE pps_len][pps]`.
pub open spec fn codec_params_payload(p: CodecParamsView) -> Seq<u8> {
    spec_u16_to_le_bytes(p.width as u16) + spec_u16_to_le_bytes(p.height as u16)
        + spec_u16_to_le_bytes(p.sps.len() as u16) + p.sps + spec_u16_to_le_bytes(
        p.pps.len() as u16,
    ) + p.pps
}

/// Whether every field of the codec parameters fits its 16-bit wire field.
pub open spec fn codec_params_fit(p: CodecParamsView) -> bool {
    &&& p.width <= u16::MAX
    &&& p.height <= u16::MAX
    &&& p.sps.len() <= u16::MAX
    &&& p.pps.len() <= u16::MAX
}

/// One NAL unit on the wire: `[u8 nal_type][u32 LE data_length][data]`.
pub open spec fn nal_bytes(n: (NALUnitType, Seq<u8>)) -> Seq<u8> {
    seq![n.0.spec_code()] + spec_u32_to_le_bytes(n.1.len() as u32) + n.1
}

/// A list of NAL units on the wire, one after another.
pub open spec fn nals_bytes(ns: Seq<(NALUnitType, Seq<u8>)>) -> Seq<u8>
    decreases ns.len(),
{
    if ns.len() == 0 {
        Seq::empty()
    } else {
        nals_bytes(ns.drop_last()) + nal_bytes(ns.last())
    }
}

pub open spec fn bool_byte(b: bool) -> u8 {
    if b {
        1
    } else {
        0
    }
}

/// `[u64 LE timestamp_us][u8 is_keyframe][u32 LE num_nal_units][NAL units]`.
pub open spec fn frame_payload(f: FrameView) -> Seq<u8> {
    spec_u64_to_le_bytes(f.timestamp_us) + seq![bool_byte(f.is_keyframe)]
        + spec_u32_to_le_bytes(f.nal_units.len() as u32) + nals_bytes(f.nal_units)
}

/// Whether every count and length of the frame fits its 32-bit wire field.
pub open spec fn frame_fits(f: FrameView) -> bool {
    &&& f.nal_units.len() <= u32::MAX
    &&& forall|i: int| 0 <= i < f.nal_units.len() ==> #[trigger] f.nal_units[i].1.len() <= u32::MAX
    &&& frame_payload(f).len() <= u32::MAX
}

pub open spec fn message_kind(m: MessageView) -> u8 {
    match m {
        MessageView::CodecParams(_) => 0x01,
        MessageView::Frame(_) => 0x02,
        MessageView::Error(_) => 0xFF,
    }
}

pub open spec fn message_payload(m: MessageView) -> Seq<u8> {
    match m {
        MessageView::CodecParams(p) => codec_params_payload(p),
        MessageView::Frame(f) => frame_payload(f),
        MessageView::Error(text) => encode_utf8(text),
    }
}

/// The bytes written for one message.
pub open spec fn encode_message(m: MessageView) -> Seq<u8> {
    envelope_bytes(message_kind(m), message_payload(m))
}

/// Whether a message can be written and read back unchanged.
pub open spec fn encodable(m: MessageView) -> bool {
    match m {
        MessageView::CodecParams(p) => codec_params_fit(p),
        MessageView::Frame(f) => frame_fits(f),
        MessageView::Error(text) => encode_utf8(text).len() <= u32::MAX,
    }
}

proof fn lemma_nals_bytes_len_mono(ns: Seq<(NALUnitType, Seq<u8>)>, i: int, j: int)
    requires
        0 <= i <= j <= ns.len(),
    ensures
        nals_bytes(ns.take(i)).len() <= nals_bytes(ns.take(j)).len(),
    decreases j - i,
{
    if i < j {
        lemma_nals_bytes_len_mono(ns, i, j - 1);
        assert(ns.take(j).drop_last() == ns.take(j - 1));
    }
}

/// Writes a `CodecParams` message.
///
/// Every field must fit the 16-bit wire field it is written to.
pub fn write_codec_params(w: &mut Vec<u8>, params: &CodecParams)
    requires
        codec_params_fit(params@),
    ensures
        final(w)@ == old(w)@ + encode_message(MessageView::CodecParams(params@)),
{
    let ghost start = w@;
    let payload_len = 2 + 2 + 2 + params.sps.len() + 2 + params.pps.len();
    push_envelope_header(w, MessageType::CodecParams.code(), payload_len);
    let ghost hdr = w@;
    extend_bytes(w, u16_to_le_bytes(params.width as u16).as_slice());
    extend_bytes(w, u16_to_le_bytes(params.height as u16).as_slice());
    extend_bytes(w, u16_to_le_bytes(params.sps.len() as u16).as_slice());
    extend_bytes(w, params.sps.as_slice());
    extend_bytes(w, u16_to_le_bytes(params.pps.len() as u16).as_slice());
    extend_bytes(w, params.pps.as_slice());
    proof {
        lemma_auto_spec_u16_to_from_le_bytes();
        assert(w@ == hdr + codec_params_payload(params@));
        assert(codec_params_payload(params@).len() == payload_len);
    }
}

pub open spec fn nal_views(nals: Seq<NALUnit>) -> Seq<(NALUnitType, Seq<u8>)> {
    nals.map_values(|n: NALUnit| n@)
}

/// Total wire size of the NAL units: type(1) + length(4) + data each.
pub fn nals_wire_len(nals: &Vec<NALUnit>) -> (len: usize)
    requires
        nals_bytes(nal_views(nals@)).len() <= usize::MAX,
    ensures
        len == nals_bytes(nal_views(nals@)).len(),
{
    let ghost ns = nal_views(nals@);
    let n = nals.len();
    let mut total: usize = 0;
    let mut i: usize = 0;
    proof {
        lemma_auto_spec_u32_to_from_le_bytes();
        assert(ns.take(n as int) == ns);
    }
    while i < n
        invariant
            n == nals@.len(),
            ns == nal_views(nals@),
            i <= n,
            total == nals_bytes(ns.take(i as int)).len(),
            nals_bytes(ns).len() <= usize::MAX,
        decreases n - i,
    {
        proof {
            lemma_nals_bytes_len_mono(ns, i as int + 1, n as int);
            assert(ns.take(i as int + 1).drop_last() == ns.take(i as int));
            assert(ns.take(i as int + 1).last() == ns[i as int]);
            assert(ns[i as int] == nals@[i as int]@);
            assert(ns.take(n as int) == ns);
            lemma_auto_spec_u32_to_from_le_bytes();
            assert(spec_u32_to_le_bytes(ns[i as int].1.len() as u32).len() == 4);
            assert(nal_bytes(ns[i as int]).len() == 5 + ns[i as int].1.len());
            assert(nals_bytes(ns.take(i as int + 1)).len() == nals_bytes(ns.take(i as int)).len()
                + 5 + nals@[i as int].data@.len());
        }
        total = total + 1 + 4 + nals[i].data.len();
        i = i + 1;
    }
    total
}

/// Appends the wire form of each NAL unit, in order.
pub fn push_nals(w: &mut Vec<u8>, nals: &Vec<NALUnit>)
    ensures
        final(w)@ == old(w)@ + nals_bytes(nal_views(nals@)),
{
    let ghost ns = nal_views(nals@);
    let n = nals.len();
    let mut j: usize = 0;
    while j < n
        invariant
            n == nals@.len(),
            ns == nal_views(nals@),
            j <= n,
            w@ == old(w)@ + nals_bytes(ns.take(j as int)),
        decreases n - j,
    {
        let nal = &nals[j];
        w.push(nal.unit_type.code());
        extend_bytes(w, u32_to_le_bytes(nal.data.len() as u32).as_slice());
        extend_bytes(w, nal.data.as_slice());
        proof {
            assert(ns.take(j as int + 1).drop_last() == ns.take(j as int));
            assert(ns.take(j as int + 1).last() == ns[j as int]);
            assert(ns[j as int] == nals@[j as int]@);
        }
        j = j + 1;
    }
    proof {
        assert(ns.take(n as int) == ns);
    }
}

/// Writes a `Frame` message.
pub fn write_frame(w: &mut Vec<u8>, frame: &FrameMessage)
    requires
        frame_payload(frame@).len() <= usize::MAX,
    ensures
        final(w)@ == old(w)@ + encode_message(MessageView::Frame(frame@)),
{
    proof {
        lemma_auto_spec_u32_to_from_le_bytes();
        lemma_auto_spec_u64_to_from_le_bytes();
    }
    let n = frame.nal_units.len();
    // timestamp(8) + keyframe(1) + count(4) + NAL units
    let payload_len = 8 + 1 + 4 + nals_wire_len(&frame.nal_units);
    push_envelope_header(w, MessageType::Frame.code(), payload_len);
    let ghost hdr = w@;
    extend_bytes(w, u64_to_le_bytes(frame.timestamp_us).as_slice());
    w.push(if frame.is_keyframe { 1u8 } else { 0u8 });
    extend_bytes(w, u32_to_le_bytes(n as u32).as_slice());
    push_nals(w, &frame.nal_units);
    proof {
        assert(w@ == hdr + frame_payload(frame@));
    }
}

/// Writes an `Error` message whose payload is the UTF-8 text of `message`.
pub fn write_error(w: &mut Vec<u8>, message: &str)
    ensures
        final(w)@ == old(w)@ + encode_message(MessageView::Error(message@)),
{
    let payload = message.as_bytes();
    push_envelope_header(w, MessageType::Error.code(), payload.len());
    extend_bytes(w, payload);
}

// ── Wire decoding ───────────────────────────────────────────────────────────

/// Decodes `[u16 width][u16 height][u16 sps_len][sps][u16 pps_len][pps]`.
pub open spec fn decode_codec_params(p: Seq<u8>) -> Result<CodecParamsView, WireError> {
    if p.len() < 8 {
        Err(WireError::TruncatedPayload)
    } else {
        let sps_len = spec_u16_from_le_bytes(p.subrange(4, 6)) as int;
        if 6 + sps_len > p.len() {
            Err(WireError::TruncatedPayload)
        } else if 6 + sps_len + 2 > p.len() {
            Err(WireError::TruncatedPayload)
        } else {
            let pps_len = spec_u16_from_le_bytes(p.subrange(6 + sps_len, 8 + sps_len)) as int;
            if 8 + sps_len + pps_len > p.len() {
                Err(WireError::TruncatedPayload)
            } else {
                Ok(CodecParamsView {
                    width: spec_u16_from_le_bytes(p.subrange(0, 2)) as u32,
                    height: spec_u16_from_le_bytes(p.subrange(2, 4)) as u32,
                    sps: p.subrange(6, 6 + sps_len),
                    pps: p.subrange(8 + sps_len, 8 + sps_len + pps_len),
                })
            }
        }
    }
}

/// Decodes `count` NAL units from the front of `p`; bytes after them are
/// ignored.
pub open spec fn decode_nals(p: Seq<u8>, count: nat) -> Result<
    Seq<(NALUnitType, Seq<u8>)>,
    WireError,
>
    decreases count,
{
    if count == 0 {
        Ok(Seq::empty())
    } else if p.len() < 5 {
        Err(WireError::TruncatedPayload)
    } else {
        let len = spec_u32_from_le_bytes(p.subrange(1, 5)) as int;
        if 5 + len > p.len() {
            Err(WireError::TruncatedPayload)
        } else {
            match NALUnitType::spec_from_header(p[0]) {
                None => Err(WireError::UnknownNalType(p[0])),
                Some(t) => match decode_nals(p.subrange(5 + len, p.len() as int), (count - 1) as nat) {
                    Ok(rest) => Ok(seq![(t, p.subrange(5, 5 + len))] + rest),
                    Err(e) => Err(e),
                },
            }
        }
    }
}

/// Decodes `[u64 timestamp][u8 keyframe][u32 count][NAL units]`.
pub open spec fn decode_frame(p: Seq<u8>) -> Result<FrameView, WireError> {
    if p.len() < 13 {
        Err(WireError::TruncatedPayload)
    } else {
        let count = spec_u32_from_le_bytes(p.subrange(9, 13)) as nat;
        match decode_nals(p.subrange(13, p.len() as int), count) {
            Ok(ns) => Ok(
                FrameView {
                    timestamp_us: spec_u64_from_le_bytes(p.subrange(0, 8)),
                    is_keyframe: p[8] != 0,
                    nal_units: ns,
                },
            ),
            Err(e) => Err(e),
        }
    }
}

pub open spec fn decode_payload(kind: u8, p: Seq<u8>) -> Result<MessageView, WireError> {
    if kind == 0x01 {
        match decode_codec_params(p) {
            Ok(c) => Ok(MessageView::CodecParams(c)),
            Err(e) => Err(e),
        }
    } else if kind == 0x02 {
        match decode_frame(p) {
            Ok(f) => Ok(MessageView::Frame(f)),
            Err(e) => Err(e),
        }
    } else if kind == 0xFF {
        if valid_utf8(p) {
            Ok(MessageView::Error(decode_utf8(p)))
        } else {
            Err(WireError::InvalidUtf8)
        }
    } else {
        Err(WireError::UnknownMessageType(kind))
    }
}

/// What reading one message from the byte sequence `s` yields.
pub open spec fn spec_read_message(s: Seq<u8>) -> Result<Option<MessageView>, WireError> {
    if s.len() == 0 {
        Ok(None)
    } else if envelope_incomplete(s) {
        Err(WireError::UnexpectedEof)
    } else {
        match decode_payload(s[0], envelope_payload(s)) {
            Ok(m) => Ok(Some(m)),
            Err(e) => Err(e),
        }
    }
}

/// Number of bytes one read consumes from `s`.
pub open spec fn spec_read_consumed(s: Seq<u8>) -> nat {
    if s.len() == 0 {
        0
    } else if envelope_incomplete(s) {
        s.len()
    } else {
        envelope_size(s)
    }
}

pub open spec fn read_result_view(r: Result<Option<Message>, WireError>) -> Result<
    Option<MessageView>,
    WireError,
> {
    match r {
        Ok(Some(m)) => Ok(Some(m@)),
        Ok(None) => Ok(None),
        Err(e) => Err(e),
    }
}

fn read_codec_params_payload(data: &[u8]) -> (r: Result<CodecParams, WireError>)
    ensures
        match decode_codec_params(data@) {
            Ok(c) => r matches Ok(p) && p@ == c,
            Err(e) => r matches Err(x) && x == e,
        },
{
    if data.len() < 8 {
        return Err(WireError::TruncatedPayload);
    }
    let width = u16_from_le_bytes(slice_subrange(data, 0, 2)) as u32;
    let height = u16_from_le_bytes(slice_subrange(data, 2, 4)) as u32;
    let sps_len = u16_from_le_bytes(slice_subrange(data, 4, 6)) as usize;
    let mut pos: usize = 6;
    if sps_len > data.len() - pos {
        return Err(WireError::TruncatedPayload);
    }
    let sps = slice_to_vec(slice_subrange(data, pos, pos + sps_len));
    pos = pos + sps_len;
    if 2 > data.len() - pos {
        return Err(WireError::TruncatedPayload);
    }
    let pps_len = u16_from_le_bytes(slice_subrange(data, pos, pos + 2)) as usize;
    pos = pos + 2;
    if pps_len > data.len() - pos {
        return Err(WireError::TruncatedPayload);
    }
    let pps = slice_to_vec(slice_subrange(data, pos, pos + pps_len));
    Ok(CodecParams { sps, pps, width, height })
}

fn read_frame_payload(data: &[u8]) -> (r: Result<FrameMessage, WireError>)
    ensures
        match decode_frame(data@) {
            Ok(f) => r matches Ok(m) && m@ == f,
            Err(e) => r matches Err(x) && x == e,
        },
{
    if data.len() < 13 {
        return Err(WireError::TruncatedPayload);
    }
    let timestamp_us = u64_from_le_bytes(slice_subrange(data, 0, 8));
    let is_keyframe = data[8] != 0;
    let num_nals = u32_from_le_bytes(slice_subrange(data, 9, 13));
    assert(num_nals == spec_u32_from_le_bytes(data@.subrange(9, 13)));
    let ghost body = data@.subrange(13, data@.len() as int);
    let mut pos: usize = 13;
    let mut nal_units: Vec<NALUnit> = Vec::new();
    let mut k: u32 = 0;
    while k < num_nals
        invariant
            13 <= pos <= data@.len(),
            k <= num_nals,
            body == data@.subrange(13, data@.len() as int),
            num_nals == spec_u32_from_le_bytes(data@.subrange(9, 13)),
            decode_nals(body, num_nals as nat) == match decode_nals(
                data@.subrange(pos as int, data@.len() as int),
                (num_nals - k) as nat,
            ) {
                Ok(rest) => Ok(nal_units@.map_values(|n: NALUnit| n@) + rest),
                Err(e) => Err(e),
            },
        decreases num_nals - k,
    {
        let ghost p = data@.subrange(pos as int, data@.len() as int);
        if 5 > data.len() - pos {
            proof {
                assert(decode_nals(p, (num_nals - k) as nat) == Err::<
                    Seq<(NALUnitType, Seq<u8>)>,
                    WireError,
                >(WireError::TruncatedPayload));
                assert(decode_nals(body, num_nals as nat) == Err::<
                    Seq<(NALUnitType, Seq<u8>)>,
                    WireError,
                >(WireError::TruncatedPayload));
                assert(decode_frame(data@) == Err::<FrameView, WireError>(WireError::TruncatedPayload));
            }
            return Err(WireError::TruncatedPayload);
        }
        let nal_type_byte = data[pos];
        let nal_data_len = u32_from_le_bytes(slice_subrange(data, pos + 1, pos + 5)) as usize;
        proof {
            assert(p.subrange(1, 5) == data@.subrange(pos + 1, pos + 5));
        }
        let after_header = pos + 5;
        if nal_data_len > data.len() - after_header {
            proof {
                assert(decode_nals(p, (num_nals - k) as nat) == Err::<
                    Seq<(NALUnitType, Seq<u8>)>,
                    WireError,
                >(WireError::TruncatedPayload));
                assert(decode_nals(body, num_nals as nat) == Err::<
                    Seq<(NALUnitType, Seq<u8>)>,
                    WireError,
                >(WireError::TruncatedPayload));
                assert(decode_frame(data@) == Err::<FrameView, WireError>(WireError::TruncatedPayload));
            }
            return Err(WireError::TruncatedPayload);
        }
        let nal_data = slice_to_vec(slice_subrange(data, after_header, after_header + nal_data_len));
        let unit_type = match NALUnitType::from_header(nal_type_byte) {
            Some(t) => t,
            None => return Err(WireError::UnknownNalType(nal_type_byte)),
        };
        proof {
            assert(p.subrange(5, 5 + nal_data_len as int) == nal_data@);
            assert(p.subrange(5 + nal_data_len as int, p.len() as int) == data@.subrange(
                after_header + nal_data_len,
                data@.len() as int,
            ));
        }
        let ghost before = nal_units@.map_values(|n: NALUnit| n@);
        nal_units.push(NALUnit { unit_type, data: nal_data });
        proof {
            assert(nal_units@.map_values(|n: NALUnit| n@) == before.push((unit_type, nal_data@)));
            assert(before.push((unit_type, nal_data@)) == before + seq![(unit_type, nal_data@)]);
            match decode_nals(
                data@.subrange(after_header + nal_data_len, data@.len() as int),
                (num_nals - k - 1) as nat,
            ) {
                Ok(rest) => {
                    assert(before + (seq![(unit_type, nal_data@)] + rest) == (before + seq![
                        (unit_type, nal_data@),
                    ]) + rest);
                },
                Err(_) => {},
            }
        }
        pos = after_header + nal_data_len;
        k = k + 1;
    }
    proof {
        assert(nal_units@.map_values(|n: NALUnit| n@) + Seq::<(NALUnitType, Seq<u8>)>::empty()
            == nal_units@.map_values(|n: NALUnit| n@));
    }
    Ok(FrameMessage { timestamp_us, is_keyframe, nal_units })
}

fn read_error_payload(data: Vec<u8>) -> (r: Result<String, WireError>)
    ensures
        match decode_payload(0xFF, data@) {
            Ok(MessageView::Error(text)) => r matches Ok(s) && s@ == text,
            Ok(_) => false,
            Err(e) => r == Err::<String, WireError>(e),
        },
{
    match string_from_utf8(data) {
        Some(s) => Ok(s),
        None => Err(WireError::InvalidUtf8),
    }
}

/// Reads the next IPC message from `r`.
///
/// Returns `Ok(None)` at a clean end of stream (no byte left between
/// messages), the message otherwise, and an error on malformed data or on
/// a stream that stops inside a message.
pub fn read_message(r: &mut ByteCursor) -> (res: Result<Option<Message>, WireError>)
    ensures
        final(r).data() == old(r).data(),
        read_result_view(res) == spec_read_message(old(r).remaining()),
        final(r).pos() == old(r).pos() + spec_read_consumed(old(r).remaining()),
{
    match read_envelope(r) {
        Err(e) => Err(e),
        Ok(EnvelopeRead::End) => Ok(None),
        Ok(EnvelopeRead::Message(kind, payload)) => {
            if kind == 0x01 {
                match read_codec_params_payload(payload.as_slice()) {
                    Ok(p) => Ok(Some(Message::CodecParams(p))),
                    Err(e) => Err(e),
                }
            } else if kind == 0x02 {
                match read_frame_payload(payload.as_slice()) {
                    Ok(f) => Ok(Some(Message::Frame(f))),
                    Err(e) => Err(e),
                }
            } else if kind == 0xFF {
                match read_error_payload(payload) {
                    Ok(text) => Ok(Some(Message::Error(text))),
                    Err(e) => Err(e),
                }
            } else {
                Err(WireError::UnknownMessageType(kind))
            }
        },
    }
}

// ── Laws ────────────────────────────────────────────────────────────────────

proof fn lemma_nals_bytes_front(ns: Seq<(NALUnitType, Seq<u8>)>)
    requires
        ns.len() > 0,
    ensures
        nals_bytes(ns) == nal_bytes(ns[0]) + nals_bytes(ns.drop_first()),
    decreases ns.len(),
{
    if ns.len() == 1 {
        assert(ns.drop_last() == Seq::<(NALUnitType, Seq<u8>)>::empty());
        assert(ns.drop_first() == Seq::<(NALUnitType, Seq<u8>)>::empty());
    } else {
        lemma_nals_bytes_front(ns.drop_last());
        assert(ns.drop_last().drop_first() == ns.drop_first().drop_last());
        assert(ns.drop_first().last() == ns.last());
        assert(ns.drop_last()[0] == ns[0]);
    }
}

pub(crate) proof fn lemma_decode_nals(ns: Seq<(NALUnitType, Seq<u8>)>, tail: Seq<u8>)
    requires
        forall|i: int| 0 <= i < ns.len() ==> #[trigger] ns[i].1.len() <= u32::MAX,
    ensures
        decode_nals(nals_bytes(ns) + tail, ns.len()) == Ok::<
            Seq<(NALUnitType, Seq<u8>)>,
            WireError,
        >(ns),
    decreases ns.len(),
{
    if ns.len() > 0 {
        lemma_auto_spec_u32_to_from_le_bytes();
        lemma_nals_bytes_front(ns);
        let n = ns[0];
        let rest = ns.drop_first();
        let s = nals_bytes(ns) + tail;
        let len = n.1.len();
        assert(nal_bytes(n).len() == 5 + len);
        assert(s == nal_bytes(n) + (nals_bytes(rest) + tail));
        assert(s[0] == n.0.spec_code());
        assert(s.subrange(1, 5) == spec_u32_to_le_bytes(len as u32));
        assert(s.subrange(5, 5 + len as int) == n.1);
        assert(s.subrange(5 + len as int, s.len() as int) == nals_bytes(rest) + tail);
        n.0.lemma_code_round_trip();
        assert forall|i: int| 0 <= i < rest.len() implies #[trigger] rest[i].1.len() <= u32::MAX by {
            assert(rest[i] == ns[i + 1]);
        }
        lemma_decode_nals(rest, tail);
        assert(seq![n] + rest == ns);
    }
}

/// Every message whose lengths and counts fit their wire fields reads back
/// as itself from the bytes written for it, whatever follows in the
/// stream, and the read consumes exactly those bytes.
pub proof fn lemma_round_trip(m: MessageView, rest: Seq<u8>)
    requires
        encodable(m),
    ensures
        spec_read_message(encode_message(m) + rest) == Ok::<Option<MessageView>, WireError>(
            Some(m),
        ),
        spec_read_consumed(encode_message(m) + rest) == encode_message(m).len(),
{
    lemma_auto_spec_u16_to_from_le_bytes();
    lemma_auto_spec_u32_to_from_le_bytes();
    lemma_auto_spec_u64_to_from_le_bytes();
    let p = message_payload(m);
    match m {
        MessageView::CodecParams(c) => {
            assert(p.len() == 8 + c.sps.len() + c.pps.len());
            lemma_envelope_decodes(0x01, p, rest);
            let k = c.sps.len() as int;
            assert(p.subrange(0, 2) == spec_u16_to_le_bytes(c.width as u16));
            assert(p.subrange(2, 4) == spec_u16_to_le_bytes(c.height as u16));
            assert(p.subrange(4, 6) == spec_u16_to_le_bytes(c.sps.len() as u16));
            assert(p.subrange(6, 6 + k) == c.sps);
            assert(p.subrange(6 + k, 8 + k) == spec_u16_to_le_bytes(c.pps.len() as u16));
            assert(p.subrange(8 + k, 8 + k + c.pps.len()) == c.pps);
            assert((c.width as u16) as u32 == c.width);
            assert((c.height as u16) as u32 == c.height);
            assert(decode_codec_params(p) == Ok::<CodecParamsView, WireError>(c));
        },
        MessageView::Frame(f) => {
            lemma_envelope_decodes(0x02, p, rest);
            assert(p.subrange(0, 8) == spec_u64_to_le_bytes(f.timestamp_us));
            assert(p.subrange(9, 13) == spec_u32_to_le_bytes(f.nal_units.len() as u32));
            assert(p.subrange(13, p.len() as int) == nals_bytes(f.nal_units)
                + Seq::<u8>::empty());
            lemma_decode_nals(f.nal_units, Seq::<u8>::empty());
            assert(decode_frame(p) == Ok::<FrameView, WireError>(f));
        },
        MessageView::Error(text) => {
            lemma_envelope_decodes(0xFF, p, rest);
            encode_utf8_valid_utf8(text);
            encode_utf8_decode_utf8(text);
        },
    }
}

} // verus!
