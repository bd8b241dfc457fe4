//! Frame queue of the desktop app and the logic of its `stream://`
//! protocol handler.
//!
//! Encoded frames wait in a bounded crossbeam `ArrayQueue`; when it is full
//! the oldest frame is dropped (live streaming). The protocol handler drains
//! the queue on each request, keeping only frames after the client's cursor
//! (and, for a first request, only keyframes).

use vstd::prelude::*;

use base64::Engine as _;
use crossbeam::queue::ArrayQueue;

use crate::encoder::{NALUnit, NALUnitType};
use crate::numparse::{parse_u64_radix, unsigned_value};
use crate::text::{chars_equal, chars_of, lemma_find_char, position_of, split_on, sub_chars};
use crate::video_ipc::nals_bytes;
use crate::video_ipc::{CodecParams, CodecParamsView};
use crate::wire::extend_bytes;
use vstd::bytes::*;

verus! {

// ── The queue (crossbeam) ───────────────────────────────────────────────────

#[verifier::external_type_specification]
#[verifier::external_body]
#[verifier::reject_recursive_types(T)]
pub struct ExArrayQueue<T>(ArrayQueue<T>);

/// The frames an `ArrayQueue` holds, oldest first.
pub uninterp spec fn queued_frames(q: ArrayQueue<StreamFrame>) -> Seq<StreamFrame>;

/// The capacity an `ArrayQueue` was made with.
pub uninterp spec fn queue_capacity(q: ArrayQueue<StreamFrame>) -> nat;

/// Calls crossbeam's `ArrayQueue::new`: an empty queue of the given
/// capacity (it panics on capacity 0, or one whose lap stamp overflows).
#[verifier::external_body]
fn queue_new(cap: usize) -> (q: ArrayQueue<StreamFrame>)
    requires
        0 < cap <= isize::MAX,
    ensures
        queued_frames(q) == Seq::<StreamFrame>::empty(),
        queue_capacity(q) == cap,
{
    ArrayQueue::new(cap)
}

/// Calls crossbeam's `ArrayQueue::is_full`, here with exclusive access:
/// whether the queue holds as many frames as its capacity.
#[verifier::external_body]
fn queue_is_full(q: &mut ArrayQueue<StreamFrame>) -> (b: bool)
    ensures
        b == (queued_frames(*old(q)).len() == queue_capacity(*old(q))),
        *final(q) == *old(q),
{
    q.is_full()
}

/// Calls crossbeam's `ArrayQueue::pop`, here with exclusive access: the
/// oldest frame leaves, or `None` when the queue is empty.
#[verifier::external_body]
fn queue_pop(q: &mut ArrayQueue<StreamFrame>) -> (r: Option<StreamFrame>)
    ensures
        queue_capacity(*final(q)) == queue_capacity(*old(q)),
        match r {
            Some(f) => queued_frames(*old(q)).len() > 0 && f == queued_frames(*old(q))[0]
                && queued_frames(*final(q)) == queued_frames(*old(q)).drop_first(),
            None => queued_frames(*old(q)).len() == 0 && queued_frames(*final(q)) == queued_frames(
                *old(q),
            ),
        },
{
    q.pop()
}

/// Calls crossbeam's `ArrayQueue::push`, here with exclusive access: the
/// frame joins at the back unless the queue is full, in which case it is
/// handed back.
#[verifier::external_body]
fn queue_push(q: &mut ArrayQueue<StreamFrame>, f: StreamFrame) -> (r: Result<(), StreamFrame>)
    ensures
        queue_capacity(*final(q)) == queue_capacity(*old(q)),
        queued_frames(*old(q)).len() < queue_capacity(*old(q)) ==> r is Ok && queued_frames(*final(q))
            == queued_frames(*old(q)).push(f),
        queued_frames(*old(q)).len() >= queue_capacity(*old(q)) ==> r is Err && r->Err_0 == f
            && queued_frames(*final(q)) == queued_frames(*old(q)),
{
    q.push(f)
}

// ── Base64 (base64 crate) ───────────────────────────────────────────────────

/// The character for a base64 digit (RFC 4648 standard alphabet).
pub open spec fn b64_digit(v: int) -> char {
    if 0 <= v < 26 {
        ('A' as int + v) as char
    } else if 26 <= v < 52 {
        ('a' as int + v - 26) as char
    } else if 52 <= v < 62 {
        ('0' as int + v - 52) as char
    } else if v == 62 {
        '+'
    } else {
        '/'
    }
}

/// Standard base64 with padding (RFC 4648 section 4): each group of three
/// bytes becomes four digits; a final group of one or two bytes becomes two
/// or three digits and `=` padding.
pub open spec fn base64_standard(d: Seq<u8>) -> Seq<char>
    decreases d.len(),
{
    if d.len() == 0 {
        Seq::empty()
    } else if d.len() == 1 {
        let b0 = d[0] as int;
        seq![b64_digit(b0 / 4), b64_digit((b0 % 4) * 16), '=', '=']
    } else if d.len() == 2 {
        let (b0, b1) = (d[0] as int, d[1] as int);
        seq![b64_digit(b0 / 4), b64_digit((b0 % 4) * 16 + b1 / 16), b64_digit((b1 % 16) * 4), '=']
    } else {
        let (b0, b1, b2) = (d[0] as int, d[1] as int, d[2] as int);
        seq![
            b64_digit(b0 / 4),
            b64_digit((b0 % 4) * 16 + b1 / 16),
            b64_digit((b1 % 16) * 4 + b2 / 64),
            b64_digit(b2 % 64),
        ] + base64_standard(d.subrange(3, d.len() as int))
    }
}

/// Calls the base64 crate's `STANDARD` engine `encode`: standard alphabet
/// with padding (it panics only when the encoded length overflows).
#[verifier::external_body]
fn base64_encode(data: &[u8]) -> (s: String)
    requires
        data@.len() / 3 * 4 + 4 <= usize::MAX,
    ensures
        s@ == base64_standard(data@),
{
    base64::engine::general_purpose::STANDARD.encode(data)
}

// ── Frames ──────────────────────────────────────────────────────────────────

/// A single encoded frame with all its NAL units.
#[derive(Debug)]
pub struct StreamFrame {
    /// Sequence number of the frame.
    pub sequence: u64,
    /// All NAL units of the frame.
    pub nal_units: Vec<NALUnit>,
    /// Timestamp in microseconds since the stream started.
    pub timestamp_us: u64,
    /// Whether the frame holds an IDR unit.
    pub is_keyframe: bool,
}

/// Resolution reported with the codec parameters.
pub const STREAM_WIDTH: u32 = 1920;
pub const STREAM_HEIGHT: u32 = 1200;

/// Index of the first unit of type `t`.
pub open spec fn first_of_type(us: Seq<NALUnit>, t: NALUnitType, from: int) -> Option<int>
    decreases us.len() - from,
{
    if from < 0 || from >= us.len() {
        None
    } else if us[from].unit_type == t {
        Some(from)
    } else {
        first_of_type(us, t, from + 1)
    }
}

/// The codec parameters a frame's units carry: the first SPS and the first
/// PPS, when both are present.
pub open spec fn params_of(us: Seq<NALUnit>) -> Option<CodecParamsView> {
    match (first_of_type(us, NALUnitType::SPS, 0), first_of_type(us, NALUnitType::PPS, 0)) {
        (Some(i), Some(j)) => Some(
            CodecParamsView {
                sps: us[i].data@,
                pps: us[j].data@,
                width: STREAM_WIDTH,
                height: STREAM_HEIGHT,
            },
        ),
        _ => None,
    }
}

/// Index of the first keyframe in `s`, or `s.len()` when there is none.
pub open spec fn first_key(s: Seq<StreamFrame>) -> nat
    decreases s.len(),
{
    if s.len() == 0 {
        0
    } else {
        let p = first_key(s.drop_last());
        if p < s.len() - 1 {
            p
        } else if s.last().is_keyframe {
            (s.len() - 1) as nat
        } else {
            s.len()
        }
    }
}

/// `first_key` is the index of the first keyframe: no frame before it is
/// one, and the frame at it is one unless it is the length.
pub proof fn lemma_first_key(s: Seq<StreamFrame>)
    ensures
        first_key(s) <= s.len(),
        forall|i: int| 0 <= i < first_key(s) ==> !(#[trigger] s[i]).is_keyframe,
        first_key(s) < s.len() ==> s[first_key(s) as int].is_keyframe,
    decreases s.len(),
{
    if s.len() > 0 {
        let d = s.drop_last();
        lemma_first_key(d);
        assert forall|i: int| 0 <= i < first_key(d) implies !(#[trigger] s[i]).is_keyframe by {
            assert(s[i] == d[i]);
        }
        if first_key(d) < d.len() {
            assert(s[first_key(d) as int] == d[first_key(d) as int]);
        } else {
            assert forall|i: int| 0 <= i < d.len() implies !(#[trigger] s[i]).is_keyframe by {
                assert(s[i] == d[i]);
            }
        }
    }
}

/// The frames a request with cursor `after` receives from the queued
/// `frames`, oldest first: those numbered after the cursor, and for a first
/// request (cursor 0) only from the first keyframe among them on, which a
/// decoder needs to start (nothing when there is none).
pub open spec fn frames_for_request(frames: Seq<StreamFrame>, after: u64) -> Seq<StreamFrame> {
    let newer = frames.filter(|f: StreamFrame| f.sequence > after);
    if after == 0 {
        newer.skip(first_key(newer) as int)
    } else {
        newer
    }
}

/// The queue manager's abstract state.
pub struct StreamManagerModel {
    pub frames: Seq<StreamFrame>,
    pub capacity: nat,
    pub codec_params: Option<CodecParamsView>,
    pub sequence_counter: u64,
}

/// Buffers encoded frames for the protocol handler.
pub struct StreamManager {
    frame_queue: ArrayQueue<StreamFrame>,
    codec_params: Option<CodecParams>,
    sequence_counter: u64,
}

/// Why a frame could not be queued.
#[derive(Debug)]
pub enum StreamError {
    /// The queue refused the frame.
    QueueRejected,
}

impl View for StreamManager {
    type V = StreamManagerModel;

    closed spec fn view(&self) -> StreamManagerModel {
        StreamManagerModel {
            frames: queued_frames(self.frame_queue),
            capacity: queue_capacity(self.frame_queue),
            codec_params: match self.codec_params {
                Some(p) => Some(p@),
                None => None,
            },
            sequence_counter: self.sequence_counter,
        }
    }
}

/// Finds the first unit of type `t`.
fn find_unit(us: &Vec<NALUnit>, t: NALUnitType) -> (r: Option<usize>)
    ensures
        match r {
            Some(i) => first_of_type(us@, t, 0) == Some(i as int) && i < us@.len(),
            None => first_of_type(us@, t, 0) is None,
        },
{
    let mut i: usize = 0;
    while i < us.len()
        invariant
            i <= us@.len(),
            first_of_type(us@, t, 0) == first_of_type(us@, t, i as int),
        decreases us@.len() - i,
    {
        if us[i].unit_type.code() == t.code() {
            assert(us@[i as int].unit_type == t) by {
                assert(us@[i as int].unit_type.spec_code() == t.spec_code());
            }
            return Some(i);
        }
        i = i + 1;
    }
    None
}

fn copy_bytes(v: &Vec<u8>) -> (r: Vec<u8>)
    ensures
        r@ == v@,
{
    let mut r: Vec<u8> = Vec::new();
    extend_bytes(&mut r, v.as_slice());
    r
}

impl StreamManager {
    /// The queue never holds more than its capacity, which is positive.
    pub closed spec fn wf(&self) -> bool {
        0 < queue_capacity(self.frame_queue) && queued_frames(self.frame_queue).len() <= queue_capacity(
            self.frame_queue,
        )
    }

    /// A manager buffering at most `capacity` frames (e.g. 60, one second
    /// at 60 fps).
    pub fn new(capacity: usize) -> (m: StreamManager)
        requires
            0 < capacity <= isize::MAX,
        ensures
            m.wf(),
            m@ == (StreamManagerModel {
                frames: Seq::empty(),
                capacity: capacity as nat,
                codec_params: None,
                sequence_counter: 0,
            }),
    {
        StreamManager { frame_queue: queue_new(capacity), codec_params: None, sequence_counter: 0 }
    }

    /// Queues the units of one encoded frame stamped `timestamp_us`.
    ///
    /// An empty frame (the encoder still buffering) is skipped. A frame with
    /// both SPS and PPS refreshes the cached codec parameters. The frame takes
    /// the next sequence number, and the oldest frame is dropped when the
    /// queue is full.
    pub fn push_frame(&mut self, nal_units: Vec<NALUnit>, timestamp_us: u64) -> (r: Result<(), StreamError>)
        requires
            old(self).wf(),
        ensures
            final(self).wf(),
            r is Ok,
            nal_units@.len() == 0 ==> final(self)@ == old(self)@,
            nal_units@.len() > 0 ==> {
                let f = StreamFrame {
                    sequence: old(self)@.sequence_counter,
                    nal_units,
                    timestamp_us,
                    is_keyframe: first_of_type(nal_units@, NALUnitType::IDR, 0) is Some,
                };
                let kept = if old(self)@.frames.len() >= old(self)@.capacity {
                    old(self)@.frames.drop_first()
                } else {
                    old(self)@.frames
                };
                final(self)@ == (StreamManagerModel {
                    frames: kept.push(f),
                    capacity: old(self)@.capacity,
                    codec_params: match params_of(nal_units@) {
                        Some(p) => Some(p),
                        None => old(self)@.codec_params,
                    },
                    sequence_counter: (if old(self)@.sequence_counter == u64::MAX {
                        0
                    } else {
                        old(self)@.sequence_counter + 1
                    }) as u64,
                })
            },
    {
        if nal_units.len() == 0 {
            return Ok(());
        }
        let sps = find_unit(&nal_units, NALUnitType::SPS);
        let pps = find_unit(&nal_units, NALUnitType::PPS);
        match (sps, pps) {
            (Some(i), Some(j)) => {
                let params = CodecParams {
                    sps: copy_bytes(&nal_units[i].data),
                    pps: copy_bytes(&nal_units[j].data),
                    width: STREAM_WIDTH,
                    height: STREAM_HEIGHT,
                };
                self.codec_params = Some(params);
            },
            _ => {},
        }
        let is_keyframe = find_unit(&nal_units, NALUnitType::IDR).is_some();
        let sequence = self.sequence_counter;
        self.sequence_counter = self.sequence_counter.wrapping_add(1);
        let frame = StreamFrame { sequence, nal_units, timestamp_us, is_keyframe };
        if queue_is_full(&mut self.frame_queue) {
            let _ = queue_pop(&mut self.frame_queue);
        }
        match queue_push(&mut self.frame_queue, frame) {
            Ok(()) => Ok(()),
            Err(_) => Err(StreamError::QueueRejected),
        }
    }

    /// Drains the queue and returns the frames a request with cursor
    /// `after_sequence` receives (see `frames_for_request`), oldest first.
    pub fn get_frames(&mut self, after_sequence: u64) -> (frames: Vec<StreamFrame>)
        requires
            old(self).wf(),
        ensures
            final(self).wf(),
            frames@ == frames_for_request(old(self)@.frames, after_sequence),
            final(self)@ == (StreamManagerModel { frames: Seq::empty(), ..old(self)@ }),
    {
        let ghost all = self@.frames;
        let ghost pred = |f: StreamFrame| f.sequence > after_sequence;
        let mut frames: Vec<StreamFrame> = Vec::new();
        // A first request starts once a keyframe arrives.
        let mut started = after_sequence != 0;
        loop
            invariant
                pred == (|f: StreamFrame| f.sequence > after_sequence),
                all == old(self)@.frames,
                all == all.take(all.len() - self@.frames.len()) + self@.frames,
                self@.frames.len() <= all.len(),
                ({
                    let newer = all.take(all.len() - self@.frames.len()).filter(pred);
                    &&& started == (after_sequence != 0 || first_key(newer) < newer.len())
                    &&& frames@ == if after_sequence == 0 {
                        newer.skip(first_key(newer) as int)
                    } else {
                        newer
                    }
                }),
                self@.capacity == old(self)@.capacity,
                self@.codec_params == old(self)@.codec_params,
                self@.sequence_counter == old(self)@.sequence_counter,
                self.wf(),
            ensures
                self@.frames.len() == 0,
                frames@ == frames_for_request(all, after_sequence),
                self@.capacity == old(self)@.capacity,
                self@.codec_params == old(self)@.codec_params,
                self@.sequence_counter == old(self)@.sequence_counter,
                self.wf(),
            decreases self@.frames.len(),
        {
            let ghost rest = self@.frames;
            let ghost k = all.len() - rest.len();
            let ghost newer = all.take(k).filter(pred);
            match queue_pop(&mut self.frame_queue) {
                Some(frame) => {
                    proof {
                        reveal_with_fuel(Seq::filter, 1);
                        assert(all[k] == frame) by {
                            assert(all == all.take(k) + rest);
                        }
                        assert(all.take(k + 1) == all.take(k).push(frame));
                        assert(all.take(k + 1).drop_last() == all.take(k));
                        assert(all == all.take(k + 1) + self@.frames);
                    }
                    if frame.sequence > after_sequence {
                        proof {
                            let n2 = newer.push(frame);
                            assert(all.take(k + 1).filter(pred) == n2);
                            assert(n2.drop_last() == newer);
                            if after_sequence == 0 && first_key(newer) < newer.len() {
                                assert(n2.skip(first_key(newer) as int) == newer.skip(
                                    first_key(newer) as int,
                                ).push(frame));
                            }
                            if after_sequence == 0 && first_key(newer) >= newer.len() {
                                assert(newer.skip(first_key(newer) as int) == Seq::<StreamFrame>::empty());
                                assert(n2.skip(newer.len() as int) == seq![frame]);
                                assert(n2.skip(n2.len() as int) == Seq::<StreamFrame>::empty());
                            }
                            if after_sequence != 0 {
                                assert(n2 == newer.push(frame));
                            }
                        }
                        if !started && frame.is_keyframe {
                            started = true;
                        }
                        if started {
                            frames.push(frame);
                        }
                    } else {
                        proof {
                            assert(all.take(k + 1).filter(pred) == newer);
                        }
                    }
                },
                None => {
                    assert(all.take(all.len() as int) == all);
                    break;
                },
            }
        }
        assert(self@.frames =~= Seq::<StreamFrame>::empty());
        frames
    }

    /// The cached codec parameters, if a frame with SPS and PPS arrived.
    pub fn get_codec_params(&self) -> (p: Option<CodecParams>)
        ensures
            match p {
                Some(x) => self@.codec_params == Some(x@),
                None => self@.codec_params is None,
            },
    {
        match &self.codec_params {
            Some(c) => Some(
                CodecParams {
                    sps: copy_bytes(&c.sps),
                    pps: copy_bytes(&c.pps),
                    width: c.width,
                    height: c.height,
                },
            ),
            None => None,
        }
    }
}

// ── The protocol handler ────────────────────────────────────────────────────

/// The units of a frame as (type, data) pairs.
pub open spec fn unit_pairs(us: Seq<NALUnit>) -> Seq<(NALUnitType, Seq<u8>)> {
    us.map_values(|u: NALUnit| (u.unit_type, u.data@))
}

/// A frame's binary form: `[u64 LE timestamp_us][u32 LE unit count]`, then
/// per unit `[u8 type][u32 LE length][data]`.
pub open spec fn stream_frame_bytes(f: StreamFrame) -> Seq<u8> {
    spec_u64_to_le_bytes(f.timestamp_us) + spec_u32_to_le_bytes(f.nal_units@.len() as u32)
        + nals_bytes(unit_pairs(f.nal_units@))
}

/// Appends a frame's binary form to `buffer`.
pub fn serialize_stream_frame(frame: &StreamFrame, buffer: &mut Vec<u8>)
    ensures
        final(buffer)@ == old(buffer)@ + stream_frame_bytes(*frame),
{
    extend_bytes(buffer, u64_to_le_bytes(frame.timestamp_us).as_slice());
    extend_bytes(buffer, u32_to_le_bytes(frame.nal_units.len() as u32).as_slice());
    let ghost head = buffer@;
    let ghost ns = unit_pairs(frame.nal_units@);
    let n = frame.nal_units.len();
    let mut j: usize = 0;
    while j < n
        invariant
            n == frame.nal_units@.len(),
            ns == unit_pairs(frame.nal_units@),
            j <= n,
            buffer@ == head + nals_bytes(ns.take(j as int)),
        decreases n - j,
    {
        let unit = &frame.nal_units[j];
        buffer.push(unit.unit_type.code());
        extend_bytes(buffer, u32_to_le_bytes(unit.data.len() as u32).as_slice());
        extend_bytes(buffer, unit.data.as_slice());
        proof {
            assert(ns.take(j as int + 1).drop_last() == ns.take(j as int));
            assert(ns.take(j as int + 1).last() == ns[j as int]);
        }
        j = j + 1;
    }
    assert(ns.take(n as int) == ns);
}

/// Whether base64 of `n` bytes has a length that fits in memory.
pub open spec fn base64_fits(n: nat) -> bool {
    n / 3 * 4 + 4 <= usize::MAX
}

/// One frame as the `/stream` endpoint lists it.
#[derive(Debug)]
pub struct FrameRecord {
    pub sequence: u64,
    pub timestamp: u64,
    pub is_keyframe: bool,
    /// The frame's binary form, in base64.
    pub data: String,
}

/// The `/stream` listing of `frames`; `None` when some frame is too large
/// to encode in memory.
pub fn frame_records(frames: &Vec<StreamFrame>) -> (r: Option<Vec<FrameRecord>>)
    ensures
        r is None <==> exists|i: int|
            0 <= i < frames@.len() && !base64_fits(stream_frame_bytes(#[trigger] frames@[i]).len()),
        r matches Some(rs) ==> rs@.len() == frames@.len() && forall|i: int|
            0 <= i < rs@.len() ==> {
                let (rec, f) = (#[trigger] rs@[i], frames@[i]);
                &&& rec.sequence == f.sequence
                &&& rec.timestamp == f.timestamp_us
                &&& rec.is_keyframe == f.is_keyframe
                &&& rec.data@ == base64_standard(stream_frame_bytes(f))
            },
{
    let mut rs: Vec<FrameRecord> = Vec::new();
    let mut i: usize = 0;
    while i < frames.len()
        invariant
            i <= frames@.len(),
            rs@.len() == i,
            forall|j: int| 0 <= j < i ==> base64_fits(stream_frame_bytes(#[trigger] frames@[j]).len()),
            forall|j: int|
                0 <= j < i ==> {
                    let (rec, f) = (#[trigger] rs@[j], frames@[j]);
                    &&& rec.sequence == f.sequence
                    &&& rec.timestamp == f.timestamp_us
                    &&& rec.is_keyframe == f.is_keyframe
                    &&& rec.data@ == base64_standard(stream_frame_bytes(f))
                },
        decreases frames@.len() - i,
    {
        let f = &frames[i];
        let mut buffer: Vec<u8> = Vec::new();
        serialize_stream_frame(f, &mut buffer);
        assert(buffer@ == stream_frame_bytes(*f));
        if buffer.len() / 3 > (usize::MAX - 4) / 4 {
            return None;
        }
        let data = base64_encode(buffer.as_slice());
        rs.push(FrameRecord { sequence: f.sequence, timestamp: f.timestamp_us, is_keyframe: f.is_keyframe, data });
        i = i + 1;
    }
    Some(rs)
}

/// The `/init` answer: codec parameters with SPS and PPS in base64.
#[derive(Debug)]
pub struct InitInfo {
    pub sps: String,
    pub pps: String,
    pub width: u32,
    pub height: u32,
}

/// The `/init` answer for `params`; `None` when SPS or PPS is too large to
/// encode in memory.
pub fn init_info(params: &CodecParams) -> (r: Option<InitInfo>)
    ensures
        r is None <==> !base64_fits(params@.sps.len()) || !base64_fits(params@.pps.len()),
        r matches Some(info) ==> {
            &&& info.sps@ == base64_standard(params@.sps)
            &&& info.pps@ == base64_standard(params@.pps)
            &&& info.width == params@.width
            &&& info.height == params@.height
        },
{
    if params.sps.len() / 3 > (usize::MAX - 4) / 4 || params.pps.len() / 3 > (usize::MAX - 4) / 4 {
        return None;
    }
    Some(
        InitInfo {
            sps: base64_encode(params.sps.as_slice()),
            pps: base64_encode(params.pps.as_slice()),
            width: params.width,
            height: params.height,
        },
    )
}

/// What a `stream://` request asks for.
#[derive(Debug, Clone, Copy, PartialEq, Eq, Structural)]
pub enum StreamRoute {
    /// A CORS preflight (`OPTIONS`).
    Preflight,
    /// `/init`: the codec parameters.
    Init,
    /// `/stream`: the frames after a cursor.
    Frames,
    /// Anything else.
    NotFound,
}

/// The prefix the webview puts before the path of `stream://localhost/...`.
pub open spec fn localhost_prefix() -> Seq<char> {
    seq!['/', 'l', 'o', 'c', 'a', 'l', 'h', 'o', 's', 't']
}

/// The request path without the `/localhost` prefix, when present.
pub open spec fn strip_localhost(p: Seq<char>) -> Seq<char> {
    if p.len() >= 10 && p.subrange(0, 10) == localhost_prefix() {
        p.subrange(10, p.len() as int)
    } else {
        p
    }
}

/// The route of a request: any `OPTIONS` request is a preflight; otherwise
/// the path decides.
pub open spec fn stream_route(method: Seq<char>, path: Seq<char>) -> StreamRoute {
    if method == seq!['O', 'P', 'T', 'I', 'O', 'N', 'S'] {
        StreamRoute::Preflight
    } else if strip_localhost(path) == seq!['/', 'i', 'n', 'i', 't'] {
        StreamRoute::Init
    } else if strip_localhost(path) == seq!['/', 's', 't', 'r', 'e', 'a', 'm'] {
        StreamRoute::Frames
    } else {
        StreamRoute::NotFound
    }
}

/// Edge WebView's `/localhost` in front of a path does not change the route:
/// a request for `/localhost` followed by any path routes as that path does
/// (when the path does not itself start with another `/localhost`, since
/// only one is taken off).
pub proof fn lemma_localhost_prefix_ignored(method: Seq<char>, path: Seq<char>)
    requires
        !(path.len() >= 10 && path.subrange(0, 10) == localhost_prefix()),
    ensures
        stream_route(method, localhost_prefix() + path) == stream_route(method, path),
{
    let full = localhost_prefix() + path;
    assert(full.subrange(0, 10) == localhost_prefix());
    assert(full.subrange(10, full.len() as int) == path);
}

/// Routes a `stream://` request by method and path.
pub fn route_stream_request(method: &str, path: &str) -> (r: StreamRoute)
    ensures
        r == stream_route(method@, path@),
{
    let options: [char; 7] = ['O', 'P', 'T', 'I', 'O', 'N', 'S'];
    let init: [char; 5] = ['/', 'i', 'n', 'i', 't'];
    let stream: [char; 7] = ['/', 's', 't', 'r', 'e', 'a', 'm'];
    let prefix: [char; 10] = ['/', 'l', 'o', 'c', 'a', 'l', 'h', 'o', 's', 't'];
    assert(options@ == seq!['O', 'P', 'T', 'I', 'O', 'N', 'S']);
    assert(init@ == seq!['/', 'i', 'n', 'i', 't']);
    assert(stream@ == seq!['/', 's', 't', 'r', 'e', 'a', 'm']);
    assert(prefix@ == localhost_prefix());
    if chars_equal(chars_of(method).as_slice(), options.as_slice()) {
        return StreamRoute::Preflight;
    }
    let p = chars_of(path);
    let stripped = if p.len() >= 10 && chars_equal(sub_chars(p.as_slice(), 0, 10).as_slice(), prefix.as_slice()) {
        sub_chars(p.as_slice(), 10, p.len())
    } else {
        assert(p@.subrange(0, p@.len() as int) == p@);
        sub_chars(p.as_slice(), 0, p.len())
    };
    if chars_equal(stripped.as_slice(), init.as_slice()) {
        StreamRoute::Init
    } else if chars_equal(stripped.as_slice(), stream.as_slice()) {
        StreamRoute::Frames
    } else {
        StreamRoute::NotFound
    }
}

/// The value of `key` in one `key=value` pair: the text after the first
/// `=` up to any second `=`, read as an unsigned decimal number.
pub open spec fn param_value(pair: Seq<char>, key: Seq<char>) -> Option<u64> {
    let parts = split_on(pair, '=');
    if parts.len() >= 2 && parts[0] == key {
        match unsigned_value(parts[1], 10) {
            Some(v) => if v <= u64::MAX {
                Some(v as u64)
            } else {
                None
            },
            None => None,
        }
    } else {
        None
    }
}

/// The first pair that gives `key` a numeric value.
pub open spec fn first_param(pairs: Seq<Seq<char>>, key: Seq<char>) -> Option<u64>
    decreases pairs.len(),
{
    if pairs.len() == 0 {
        None
    } else {
        match param_value(pairs[0], key) {
            Some(v) => Some(v),
            None => first_param(pairs.drop_first(), key),
        }
    }
}

/// The numeric value of `key` in a `&`-separated query string.
pub open spec fn query_param(query: Seq<char>, key: Seq<char>) -> Option<u64> {
    first_param(split_on(query, '&'), key)
}

fn pair_value(pair: &[char], key: &[char]) -> (r: Option<u64>)
    ensures
        r == param_value(pair@, key@),
{
    proof {
        lemma_find_char(pair@, '=');
    }
    match position_of(pair, '=') {
        None => None,
        Some(k) => {
            let name = sub_chars(pair, 0, k);
            if !chars_equal(name.as_slice(), key) {
                return None;
            }
            let n = pair.len();
            let rest = sub_chars(pair, k + 1, n);
            proof {
                lemma_find_char(rest@, '=');
                assert(split_on(pair@, '=') == seq![name@] + split_on(rest@, '='));
            }
            let value = match position_of(rest.as_slice(), '=') {
                Some(m) => sub_chars(rest.as_slice(), 0, m),
                None => {
                    assert(rest@.subrange(0, rest@.len() as int) == rest@);
                    sub_chars(rest.as_slice(), 0, rest.len())
                },
            };
            assert(split_on(rest@, '=')[0] == value@);
            assert(split_on(pair@, '=')[1] == value@);
            parse_u64_radix(value.as_slice(), 10)
        },
    }
}

/// The numeric value of `key` in a query string such as `after=42&x=1`:
/// the first `key=value` pair whose value is a decimal `u64`.
pub fn parse_query_param(query: &str, key: &str) -> (r: Option<u64>)
    ensures
        r == query_param(query@, key@),
{
    let kc = chars_of(key);
    let mut rest = chars_of(query);
    loop
        invariant
            kc@ == key@,
            query_param(query@, key@) == first_param(split_on(rest@, '&'), key@),
        decreases rest@.len(),
    {
        proof {
            lemma_find_char(rest@, '&');
        }
        match position_of(rest.as_slice(), '&') {
            Some(k) => {
                let pair = sub_chars(rest.as_slice(), 0, k);
                let v = pair_value(pair.as_slice(), kc.as_slice());
                let ghost tail = rest@.subrange(k + 1, rest@.len() as int);
                assert(split_on(rest@, '&') == seq![pair@] + split_on(tail, '&'));
                assert((seq![pair@] + split_on(tail, '&')).drop_first() == split_on(tail, '&'));
                if v.is_some() {
                    return v;
                }
                rest = sub_chars(rest.as_slice(), k + 1, rest.len());
            },
            None => {
                assert(split_on(rest@, '&') == seq![rest@]);
                assert(seq![rest@].drop_first() == Seq::<Seq<char>>::empty());
                assert(first_param(Seq::<Seq<char>>::empty(), key@) is None);
                assert(first_param(seq![rest@], key@) == param_value(rest@, key@));
                return pair_value(rest.as_slice(), kc.as_slice());
            },
        }
    }
}

} // verus!
