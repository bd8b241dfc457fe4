//! Per-stream circular frame buffer with a cache of the codec parameters.
//!
//! Frames are serialized once, when pushed, into the layout the viewers
//! parse:
//!
//! ```text
//! [u64 LE: timestamp_us]
//! [u32 LE: num_nal_units]
//! for each NAL: [u8: nal_type][u32 LE: data_length][data bytes]
//! ```
//!
//! The keyframe flag of the IPC frame is not part of this payload; viewers
//! infer it from the NAL unit types.

use vstd::prelude::*;
use vstd::bytes::*;

use crate::audio_buffer::{keep_last, ring_slot};
use crate::video_ipc::{
    CodecParams, CodecParamsView, FrameMessage, FrameView, decode_nals, lemma_decode_nals, nal_views,
    nals_bytes, push_nals, NALUnitType,
};
use crate::wire::WireError;
use crate::seq_filter::{
    lemma_filter_all_kept, lemma_filter_all_rejected, lemma_filter_increasing, lemma_filter_split,
};
use crate::wire::extend_bytes;

verus! {

broadcast use vstd::seq_lib::group_seq_properties;

/// A buffered frame: sequence number, keyframe flag, timestamp and the
/// pre-serialized payload.
#[derive(Debug)]
pub struct BufferedFrame {
    /// Increasing sequence number (the first frame after a reset is 1).
    pub sequence: u32,
    /// Whether the frame contains an IDR NAL unit.
    pub is_keyframe: bool,
    /// Wall-clock timestamp in microseconds since the Unix epoch.
    pub timestamp_us: u64,
    /// Pre-serialized payload.
    pub payload: Vec<u8>,
}

/// Sequence number, keyframe flag, timestamp and payload of a frame.
pub type FrameEntry = (u32, bool, u64, Seq<u8>);

impl View for BufferedFrame {
    type V = FrameEntry;

    open spec fn view(&self) -> FrameEntry {
        (self.sequence, self.is_keyframe, self.timestamp_us, self.payload@)
    }
}

/// The abstract state of a stream buffer.
pub struct StreamBufferModel {
    pub capacity: nat,
    pub entries: Seq<FrameEntry>,
    pub next_sequence: nat,
    pub codec_params: Option<CodecParamsView>,
}

/// The payload stored for a frame.
pub open spec fn frame_payload(f: FrameView) -> Seq<u8> {
    spec_u64_to_le_bytes(f.timestamp_us) + spec_u32_to_le_bytes(f.nal_units.len() as u32)
        + nals_bytes(f.nal_units)
}

/// The buffer after one frame is pushed: the frame takes the next sequence
/// number and the oldest frame leaves once the buffer is full.
pub open spec fn model_push(m: StreamBufferModel, f: FrameView) -> StreamBufferModel {
    StreamBufferModel {
        entries: keep_last(
            m.entries.push((m.next_sequence as u32, f.is_keyframe, f.timestamp_us, frame_payload(f))),
            m.capacity,
        ),
        next_sequence: m.next_sequence + 1,
        ..m
    }
}

/// Index of the first keyframe in `s`, or `s.len()` when there is none.
pub open spec fn first_keyframe(s: Seq<FrameEntry>) -> nat
    decreases s.len(),
{
    if s.len() == 0 {
        0
    } else if s[0].1 {
        0
    } else {
        1 + first_keyframe(s.drop_first())
    }
}

/// The frames a reader with cursor `after` receives, oldest first: every
/// frame numbered after the cursor, except that a first request (cursor 0)
/// starts at the first keyframe, which a decoder needs to initialize.
pub open spec fn model_after(m: StreamBufferModel, after: u32) -> Seq<FrameEntry> {
    let f = m.entries.filter(|e: FrameEntry| e.0 > after);
    if after == 0 {
        f.skip(first_keyframe(f) as int)
    } else {
        f
    }
}

pub open spec fn model_empty(capacity: nat) -> StreamBufferModel {
    StreamBufferModel { capacity, entries: Seq::empty(), next_sequence: 1, codec_params: None }
}

/// The invariant of every reachable buffer state.
pub open spec fn model_wf(m: StreamBufferModel) -> bool {
    &&& m.entries.len() <= m.capacity
    &&& m.next_sequence <= u32::MAX
    &&& m.next_sequence >= m.entries.len() + 1
    &&& forall|i: int|
        0 <= i < m.entries.len() ==> #[trigger] m.entries[i].0 == m.next_sequence
            - m.entries.len() + i
}

/// Fixed-capacity circular buffer of encoded video frames.
///
/// Several readers can poll it concurrently without draining it: reads
/// filter by sequence number instead of removing frames.
pub struct StreamBuffer {
    frames: Vec<Option<BufferedFrame>>,
    capacity: usize,
    /// Slot of the oldest buffered frame.
    start: usize,
    count: usize,
    next_sequence: u32,
    codec_params: Option<CodecParams>,
}

impl StreamBuffer {
    spec fn entry(&self, i: int) -> FrameEntry {
        self.frames@[ring_slot(self.start as int, self.capacity as int, i)]->0@
    }

    pub closed spec fn wf(&self) -> bool {
        &&& self.frames@.len() == self.capacity
        &&& self.count <= self.capacity
        &&& (self.start < self.capacity || (self.capacity == 0 && self.start == 0))
        &&& self.next_sequence >= self.count + 1
        &&& forall|i: int|
            0 <= i < self.count ==> {
                &&& #[trigger] self.frames@[ring_slot(self.start as int, self.capacity as int, i)] is Some
                &&& self.frames@[ring_slot(
                    self.start as int,
                    self.capacity as int,
                    i,
                )]->0.sequence == self.next_sequence - self.count + i
            }
    }
}

impl View for StreamBuffer {
    type V = StreamBufferModel;

    closed spec fn view(&self) -> StreamBufferModel {
        StreamBufferModel {
            capacity: self.capacity as nat,
            entries: Seq::new(self.count as nat, |i: int| self.entry(i)),
            next_sequence: self.next_sequence as nat,
            codec_params: match self.codec_params {
                Some(p) => Some(p@),
                None => None,
            },
        }
    }
}

/// Serializes a frame into the payload layout the viewers expect.
pub fn serialize_frame_payload(frame: &FrameMessage) -> (buf: Vec<u8>)
    ensures
        buf@ == frame_payload(frame@),
{
    let mut buf: Vec<u8> = Vec::new();
    extend_bytes(&mut buf, u64_to_le_bytes(frame.timestamp_us).as_slice());
    extend_bytes(&mut buf, u32_to_le_bytes(frame.nal_units.len() as u32).as_slice());
    push_nals(&mut buf, &frame.nal_units);
    buf
}

impl StreamBuffer {
    /// Every well-formed buffer is in a reachable abstract state.
    pub proof fn lemma_model_wf(&self)
        requires
            self.wf(),
        ensures
            model_wf(self@),
    {
    }

    /// An empty buffer holding at most `capacity` frames.
    pub fn new(capacity: usize) -> (b: StreamBuffer)
        ensures
            b.wf(),
            b@ == model_empty(capacity as nat),
    {
        let mut frames: Vec<Option<BufferedFrame>> = Vec::new();
        let mut i: usize = 0;
        while i < capacity
            invariant
                i <= capacity,
                frames@.len() == i,
            decreases capacity - i,
        {
            frames.push(None);
            i = i + 1;
        }
        let b = StreamBuffer {
            frames,
            capacity,
            start: 0,
            count: 0,
            next_sequence: 1,
            codec_params: None,
        };
        assert(b@.entries == Seq::<FrameEntry>::empty());
        b
    }

    /// Whether a frame can be pushed: the buffer has room for one and its
    /// sequence numbers are not exhausted.
    pub fn accepts_frame(&self) -> (b: bool)
        requires
            self.wf(),
        ensures
            b == (self@.capacity > 0 && self@.next_sequence < u32::MAX),
    {
        self.capacity > 0 && self.next_sequence < u32::MAX
    }

    /// Caches the latest codec parameters (SPS, PPS, resolution).
    pub fn set_codec_params(&mut self, params: CodecParams)
        requires
            old(self).wf(),
        ensures
            final(self).wf(),
            final(self)@ == (StreamBufferModel { codec_params: Some(params@), ..old(self)@ }),
    {
        let ghost entries = self@.entries;
        self.codec_params = Some(params);
        assert(self@.entries =~= entries);
    }

    /// The cached codec parameters, or `None` before the encoder produced
    /// its first IDR frame.
    pub fn get_codec_params(&self) -> (p: Option<&CodecParams>)
        ensures
            match p {
                Some(x) => self@.codec_params == Some(x@),
                None => self@.codec_params is None,
            },
    {
        self.codec_params.as_ref()
    }

    /// Clears frames, codec parameters and the sequence counter, so that no
    /// frame of a replaced capture process is ever served.
    pub fn reset(&mut self)
        requires
            old(self).wf(),
        ensures
            final(self).wf(),
            final(self)@ == model_empty(old(self)@.capacity),
    {
        let n = self.frames.len();
        let mut i: usize = 0;
        while i < n
            invariant
                i <= n,
                n == self.frames@.len(),
                n == self.capacity,
                self.start < self.capacity || (self.capacity == 0 && self.start == 0),
            decreases n - i,
        {
            self.frames.set(i, None);
            i = i + 1;
        }
        self.start = 0;
        self.count = 0;
        self.next_sequence = 1;
        self.codec_params = None;
        assert(self@.entries == Seq::<FrameEntry>::empty());
    }

    /// Buffers one frame under the next sequence number, dropping the oldest
    /// frame when the buffer is full.
    #[verifier::rlimit(30)]
    pub fn push_frame(&mut self, frame: &FrameMessage)
        requires
            old(self).wf(),
            old(self)@.capacity > 0,
            old(self)@.next_sequence < u32::MAX,
        ensures
            final(self).wf(),
            final(self)@ == model_push(old(self)@, frame@),
    {
        let ghost old_model = self@;
        let sequence = self.next_sequence;
        self.next_sequence = self.next_sequence + 1;
        let payload = serialize_frame_payload(frame);
        let ghost new_entry = (sequence, frame.is_keyframe, frame.timestamp_us, payload@);
        let item = BufferedFrame {
            sequence,
            is_keyframe: frame.is_keyframe,
            timestamp_us: frame.timestamp_us,
            payload,
        };

        let cap = self.capacity;
        if self.count < cap {
            let idx = if self.count < cap - self.start {
                self.start + self.count
            } else {
                self.count - (cap - self.start)
            };
            self.frames.set(idx, Some(item));
            self.count = self.count + 1;
            proof {
                assert forall|i: int| 0 <= i < self.count implies {
                    &&& #[trigger] self.frames@[ring_slot(self.start as int, self.capacity as int, i)] is Some
                    &&& self.frames@[ring_slot(
                        self.start as int,
                        self.capacity as int,
                        i,
                    )]->0.sequence == self.next_sequence - self.count + i
                } by {
                    if i < self.count - 1 {
                        assert(ring_slot(self.start as int, cap as int, i) != idx);
                    } else {
                        assert(ring_slot(self.start as int, cap as int, i) == idx);
                    }
                }
                assert(self@.entries =~= old_model.entries.push(new_entry));
            }
        } else {
            let idx = self.start;
            self.frames.set(idx, Some(item));
            self.start = if self.start + 1 < cap {
                self.start + 1
            } else {
                0
            };
            proof {
                assert forall|i: int| 0 <= i < self.count implies {
                    &&& #[trigger] self.frames@[ring_slot(self.start as int, self.capacity as int, i)] is Some
                    &&& self.frames@[ring_slot(
                        self.start as int,
                        self.capacity as int,
                        i,
                    )]->0.sequence == self.next_sequence - self.count + i
                } by {
                    if i < self.count - 1 {
                        assert(ring_slot(self.start as int, cap as int, i) != idx);
                        assert(ring_slot(self.start as int, cap as int, i) == ring_slot(
                            old(self).start as int,
                            cap as int,
                            i + 1,
                        ));
                    }
                }
                let pushed = old_model.entries.push(new_entry);
                assert(self@.entries =~= pushed.skip(pushed.len() - cap));
            }
        }
    }

    /// All buffered frames numbered after `after_sequence`, oldest first.
    ///
    /// A first request (`after_sequence == 0`) skips frames up to the first
    /// keyframe, since a decoder needs an IDR frame to initialize.
    pub fn get_frames_after(&self, after_sequence: u32) -> (r: Vec<&BufferedFrame>)
        requires
            self.wf(),
        ensures
            r@.map_values(|f: &BufferedFrame| f@) == model_after(self@, after_sequence),
    {
        let ghost pred = |e: FrameEntry| e.0 > after_sequence;
        let ghost entries = self@.entries;
        let mut result: Vec<&BufferedFrame> = Vec::new();
        let mut need_keyframe = after_sequence == 0;
        let mut i: usize = 0;
        while i < self.count
            invariant
                self.wf(),
                i <= self.count,
                entries == self@.entries,
                pred == (|e: FrameEntry| e.0 > after_sequence),
                ({
                    let f = entries.take(i as int).filter(pred);
                    let r = result@.map_values(|x: &BufferedFrame| x@);
                    if after_sequence == 0 {
                        &&& need_keyframe <==> first_keyframe(f) == f.len()
                        &&& r == f.skip(first_keyframe(f) as int)
                    } else {
                        &&& !need_keyframe
                        &&& r == f
                    }
                }),
            decreases self.count - i,
        {
            let idx = if i < self.capacity - self.start {
                self.start + i
            } else {
                i - (self.capacity - self.start)
            };
            assert(idx == ring_slot(self.start as int, self.capacity as int, i as int));
            let ghost f0 = entries.take(i as int).filter(pred);
            let ghost r0 = result@.map_values(|x: &BufferedFrame| x@);
            match &self.frames[idx] {
                Some(frame) => {
                    proof {
                        assert(entries.take(i as int + 1).drop_last() == entries.take(i as int));
                        assert(entries.take(i as int + 1).last() == frame@);
                        reveal_with_fuel(Seq::filter, 1);
                    }
                    if frame.sequence > after_sequence {
                        proof {
                            let f1 = f0.push(frame@);
                            assert(entries.take(i as int + 1).filter(pred) == f1);
                            lemma_first_keyframe_push(f0, frame@);
                        }
                        if need_keyframe {
                            if frame.is_keyframe {
                                need_keyframe = false;
                                result.push(frame);
                                proof {
                                    let f1 = f0.push(frame@);
                                    assert(r0 == Seq::<FrameEntry>::empty());
                                    assert(f1.skip(first_keyframe(f1) as int) == seq![frame@]);
                                    assert(result@.map_values(|x: &BufferedFrame| x@) == r0.push(
                                        frame@,
                                    ));
                                }
                            } else {
                                proof {
                                    let f1 = f0.push(frame@);
                                    assert(f1.skip(first_keyframe(f1) as int)
                                        == Seq::<FrameEntry>::empty());
                                }
                            }
                        } else {
                            result.push(frame);
                            proof {
                                let f1 = f0.push(frame@);
                                assert(result@.map_values(|x: &BufferedFrame| x@) == r0.push(
                                    frame@,
                                ));
                                if after_sequence == 0 {
                                    let k = first_keyframe(f0) as int;
                                    assert(f1.skip(k) == f0.skip(k).push(frame@));
                                }
                            }
                        }
                    }
                },
                None => {},
            }
            i = i + 1;
        }
        assert(entries.take(self.count as int) == entries);
        result
    }
}

/// Appending a frame leaves the first keyframe where it was, or, if there
/// was none, makes the appended frame the first keyframe when it is one.
proof fn lemma_first_keyframe_push(s: Seq<FrameEntry>, e: FrameEntry)
    ensures
        first_keyframe(s) <= s.len(),
        first_keyframe(s) < s.len() ==> first_keyframe(s.push(e)) == first_keyframe(s)
            && s[first_keyframe(s) as int].1,
        first_keyframe(s) == s.len() ==> first_keyframe(s.push(e)) == if e.1 {
            s.len()
        } else {
            s.len() + 1
        },
    decreases s.len(),
{
    if s.len() > 0 {
        let t = s.drop_first();
        lemma_first_keyframe_push(t, e);
        assert(s.push(e).drop_first() == t.push(e));
        assert(s.push(e)[0] == s[0]);
        if !s[0].1 {
            let k = first_keyframe(t);
            assert(first_keyframe(s) == 1 + k);
            if k < t.len() {
                assert(t[k as int] == s[k as int + 1]);
            }
        }
    } else {
        assert(s.push(e)[0] == e);
        assert(s.push(e).drop_first() == Seq::<FrameEntry>::empty());
    }
}

// ── Laws ────────────────────────────────────────────────────────────────────

/// The bytes `units` take in a payload: 5 (type and length) plus the data
/// of each unit.
pub open spec fn units_wire_len(units: Seq<(NALUnitType, Seq<u8>)>) -> nat
    decreases units.len(),
{
    if units.len() == 0 {
        0
    } else {
        units_wire_len(units.drop_last()) + 5 + units.last().1.len()
    }
}

proof fn lemma_nals_bytes_len(units: Seq<(NALUnitType, Seq<u8>)>)
    ensures
        nals_bytes(units).len() == units_wire_len(units),
    decreases units.len(),
{
    if units.len() > 0 {
        lemma_auto_spec_u32_to_from_le_bytes();
        lemma_nals_bytes_len(units.drop_last());
        assert(crate::video_ipc::nal_bytes(units.last()).len() == 5 + units.last().1.len());
    }
}

/// The payload stored for a frame holds the whole frame: the timestamp in
/// its first 8 bytes, the unit count in the next 4, and then every unit of
/// the frame in order, so that reading `[u8 type][u32 len][data]` records
/// back gives exactly the frame's units; its length is 12 plus, for each
/// unit, 5 and its data length.
pub proof fn lemma_frame_payload_holds_every_unit(f: FrameView)
    requires
        f.nal_units.len() <= u32::MAX,
        forall|i: int| 0 <= i < f.nal_units.len() ==> #[trigger] f.nal_units[i].1.len() <= u32::MAX,
    ensures
        frame_payload(f).len() == 12 + units_wire_len(f.nal_units),
        spec_u64_from_le_bytes(frame_payload(f).subrange(0, 8)) == f.timestamp_us,
        spec_u32_from_le_bytes(frame_payload(f).subrange(8, 12)) == f.nal_units.len(),
        decode_nals(frame_payload(f).subrange(12, frame_payload(f).len() as int), f.nal_units.len())
            == Ok::<Seq<(NALUnitType, Seq<u8>)>, WireError>(f.nal_units),
{
    lemma_auto_spec_u32_to_from_le_bytes();
    lemma_auto_spec_u64_to_from_le_bytes();
    lemma_nals_bytes_len(f.nal_units);
    let p = frame_payload(f);
    assert(p.subrange(0, 8) == spec_u64_to_le_bytes(f.timestamp_us));
    assert(p.subrange(8, 12) == spec_u32_to_le_bytes(f.nal_units.len() as u32));
    assert(p.subrange(12, p.len() as int) == nals_bytes(f.nal_units) + Seq::<u8>::empty());
    lemma_decode_nals(f.nal_units, Seq::<u8>::empty());
}

/// A new buffer is in a reachable state, and pushing keeps every buffer of
/// positive capacity in one: at most `capacity` frames, numbered
/// consecutively up to the newest sequence number.
pub proof fn lemma_push_keeps_wf(m: StreamBufferModel, f: FrameView)
    requires
        model_wf(m),
        m.capacity > 0,
        m.next_sequence < u32::MAX,
    ensures
        model_wf(model_push(m, f)),
        model_wf(model_empty(m.capacity)),
{
    let pushed = m.entries.push(
        (m.next_sequence as u32, f.is_keyframe, f.timestamp_us, frame_payload(f)),
    );
    let r = model_push(m, f);
    assert forall|i: int| 0 <= i < r.entries.len() implies #[trigger] r.entries[i].0
        == r.next_sequence - r.entries.len() + i by {
        if pushed.len() > m.capacity {
            assert(r.entries == pushed.skip(1));
            assert(r.entries[i] == pushed[i + 1]);
        } else {
            assert(r.entries == pushed);
        }
        if i + 1 < pushed.len() {
            assert(pushed[i] == m.entries[i]);
        }
    }
}

/// The sequence numbers a reader receives are strictly increasing and all
/// after its cursor.
pub proof fn lemma_after_increasing(m: StreamBufferModel, after: u32)
    requires
        model_wf(m),
    ensures
        forall|i: int, j: int|
            0 <= i < j < model_after(m, after).len() ==> model_after(m, after)[i].0 < model_after(
                m,
                after,
            )[j].0,
        forall|i: int| 0 <= i < model_after(m, after).len() ==> model_after(m, after)[i].0 > after,
{
    broadcast use Seq::lemma_filter_pred;

    let pred = |e: FrameEntry| e.0 > after;
    let key = |e: FrameEntry| e.0 as int;
    lemma_filter_increasing(m.entries, key, pred);
    let f = m.entries.filter(pred);
    let r = model_after(m, after);
    let k: int = if after == 0 { first_keyframe(f) as int } else { 0 };
    lemma_first_keyframe_bound(f);
    assert(r == f.skip(k));
    assert forall|i: int| 0 <= i < r.len() implies #[trigger] r[i].0 > after by {
        assert(r[i] == f[i + k]);
        assert(pred(f[i + k]));
    }
    assert forall|i: int, j: int| 0 <= i < j < r.len() implies r[i].0 < r[j].0 by {
        assert(r[i] == f[i + k]);
        assert(r[j] == f[j + k]);
        assert(key(f[i + k]) < key(f[j + k]));
    }
}

/// A first request (cursor 0) never starts with a frame a decoder cannot
/// begin with: what it receives, if anything, starts with a keyframe.
pub proof fn lemma_first_request_starts_with_keyframe(m: StreamBufferModel)
    ensures
        model_after(m, 0).len() > 0 ==> model_after(m, 0)[0].1,
{
    let f = m.entries.filter(|e: FrameEntry| e.0 > 0u32);
    lemma_first_keyframe_bound(f);
}

/// The first keyframe index is within the sequence, and where it is below
/// the length it points at a keyframe.
proof fn lemma_first_keyframe_bound(s: Seq<FrameEntry>)
    ensures
        first_keyframe(s) <= s.len(),
        first_keyframe(s) < s.len() ==> s[first_keyframe(s) as int].1,
    decreases s.len(),
{
    if s.len() > 0 && !s[0].1 {
        let t = s.drop_first();
        lemma_first_keyframe_bound(t);
        let k = first_keyframe(t);
        if k < t.len() {
            assert(t[k as int] == s[k as int + 1]);
        }
    }
}

/// A reader whose cursor is the newest sequence number before a push
/// receives exactly the pushed frame afterwards.
pub proof fn lemma_read_after_push(m: StreamBufferModel, f: FrameView)
    requires
        model_wf(m),
        m.capacity > 0,
        1 < m.next_sequence < u32::MAX,
    ensures
        model_after(model_push(m, f), (m.next_sequence - 1) as u32) == seq![
            (m.next_sequence as u32, f.is_keyframe, f.timestamp_us, frame_payload(f)),
        ],
{
    let r = model_push(m, f);
    let a = (m.next_sequence - 1) as u32;
    let e = (m.next_sequence as u32, f.is_keyframe, f.timestamp_us, frame_payload(f));
    let pred = |x: FrameEntry| x.0 > a;
    lemma_push_keeps_wf(m, f);
    let d = r.entries.drop_last();
    assert forall|i: int| 0 <= i < d.len() implies !pred(#[trigger] d[i]) by {
        assert(d[i] == r.entries[i]);
    }
    lemma_filter_all_rejected(d, pred);
    reveal_with_fuel(Seq::filter, 1);
    assert(r.entries.last() == e);
}

/// A request whose cursor precedes every buffered frame, other than a
/// first request, receives every buffered frame.
pub proof fn lemma_old_cursor_reads_all(m: StreamBufferModel, after: u32)
    requires
        model_wf(m),
        after > 0,
        after <= m.next_sequence - m.entries.len() - 1,
    ensures
        model_after(m, after) == m.entries,
{
    let pred = |e: FrameEntry| e.0 > after;
    assert forall|i: int| 0 <= i < m.entries.len() implies pred(#[trigger] m.entries[i]) by {}
    lemma_filter_all_kept(m.entries, pred);
}

/// After a reset the next frame pushed is numbered 1 again.
pub proof fn lemma_reset_restarts_sequence(capacity: nat, f: FrameView)
    requires
        capacity > 0,
    ensures
        model_push(model_empty(capacity), f).entries == seq![
            (1u32, f.is_keyframe, f.timestamp_us, frame_payload(f)),
        ],
{
}

/// The buffer of the given capacity after the frames of `history` were
/// pushed, oldest first, onto an empty buffer (as made by `new` or
/// `reset`).
pub open spec fn model_pushes(capacity: nat, history: Seq<FrameView>) -> StreamBufferModel
    decreases history.len(),
{
    if history.len() == 0 {
        model_empty(capacity)
    } else {
        model_push(model_pushes(capacity, history.drop_last()), history.last())
    }
}

/// The frames of `history` from index `lo` on, each under its sequence
/// number (the `i`-th frame pushed, counting from 0, is numbered `i + 1`).
pub open spec fn frame_range(history: Seq<FrameView>, lo: int) -> Seq<FrameEntry> {
    Seq::new(
        (history.len() - lo) as nat,
        |k: int|
            (
                (lo + 1 + k) as u32,
                history[lo + k].is_keyframe,
                history[lo + k].timestamp_us,
                frame_payload(history[lo + k]),
            ),
    )
}

/// After `n` pushes a buffer holds the last `min(n, capacity)` frames and
/// numbers the next one `n + 1`.
proof fn lemma_pushes_window(capacity: nat, history: Seq<FrameView>)
    requires
        capacity > 0,
        history.len() < u32::MAX,
    ensures
        ({
            let n = history.len() as int;
            let w = if n <= capacity { n } else { capacity as int };
            let m = model_pushes(capacity, history);
            &&& m.entries == frame_range(history, n - w)
            &&& m.next_sequence == n + 1
            &&& m.capacity == capacity
        }),
    decreases history.len(),
{
    let n = history.len() as int;
    if n > 0 {
        let d = history.drop_last();
        lemma_pushes_window(capacity, d);
        let prev = model_pushes(capacity, d);
        let f = history.last();
        let pushed = prev.entries.push((n as u32, f.is_keyframe, f.timestamp_us, frame_payload(f)));
        let m = model_pushes(capacity, history);
        assert(m.entries == keep_last(pushed, capacity));
        if n <= capacity {
            assert forall|k: int| 0 <= k < n implies #[trigger] pushed[k] == frame_range(history, 0)[k] by {
                if k < n - 1 {
                    assert(d[k] == history[k]);
                }
            }
            assert(m.entries =~= frame_range(history, 0));
        } else {
            let lo = n - capacity;
            assert forall|k: int| 0 <= k < capacity implies #[trigger] pushed.skip(1)[k] == frame_range(
                history,
                lo,
            )[k] by {
                if k + 1 < capacity {
                    assert(d[lo + k] == history[lo + k]);
                }
            }
            assert(m.entries =~= frame_range(history, lo));
        }
    } else {
        assert(model_pushes(capacity, history).entries =~= frame_range(history, 0));
    }
}

/// The index, counting from 0 in the push history, of the oldest frame a
/// reader with cursor `after` receives from a buffer of `capacity` after
/// `n` pushes, before the first-request keyframe skip (the frame numbered
/// `s` sits at index `s - 1`): the cursor itself, but no older than the
/// oldest frame still buffered, and `n` when nothing is newer than the
/// cursor.
pub open spec fn read_start(n: int, capacity: nat, after: u32) -> int {
    let oldest = if n <= capacity { 0 } else { n - capacity };
    if after >= n {
        n
    } else if after >= oldest {
        after as int
    } else {
        oldest
    }
}

/// What a read returns after any sequence of pushes onto an empty buffer
/// of positive capacity: with `n` frames pushed, the frames numbered from
/// `max(cursor, n - min(n, capacity)) + 1` to `n`, in increasing order and
/// each as it was pushed under that number; nothing for a cursor at or
/// beyond `n`; and for a first request (cursor 0) only those from the
/// first keyframe among them on (nothing when there is none).
pub proof fn lemma_frames_after_range(capacity: nat, history: Seq<FrameView>, after: u32)
    requires
        capacity > 0,
        history.len() < u32::MAX,
    ensures
        model_pushes(capacity, history).next_sequence == history.len() + 1,
        model_after(model_pushes(capacity, history), after) == if after == 0 {
            frame_range(history, read_start(history.len() as int, capacity, after)).skip(
                first_keyframe(frame_range(history, read_start(history.len() as int, capacity, after))) as int,
            )
        } else {
            frame_range(history, read_start(history.len() as int, capacity, after))
        },
        after >= history.len() ==> model_after(model_pushes(capacity, history), after).len() == 0,
        after == 0 && (forall|i: int|
            read_start(history.len() as int, capacity, after) <= i < history.len()
                ==> !(#[trigger] history[i]).is_keyframe) ==> model_after(model_pushes(capacity, history), after).len() == 0,
{
    lemma_pushes_window(capacity, history);
    let n = history.len() as int;
    let m = model_pushes(capacity, history);
    let oldest = if n <= capacity { 0 } else { n - capacity };
    let lo = read_start(n, capacity, after);
    let k = lo - oldest;
    let pred = |e: FrameEntry| e.0 > after;
    assert forall|i: int| 0 <= i < k implies !pred(#[trigger] m.entries[i]) by {}
    assert forall|i: int| k <= i < m.entries.len() implies pred(#[trigger] m.entries[i]) by {}
    lemma_filter_split(m.entries, pred, k);
    let r = frame_range(history, lo);
    assert(m.entries.skip(k) =~= r);
    lemma_first_keyframe_bound(r);
    if after == 0 && (forall|i: int| lo <= i < history.len() ==> !(#[trigger] history[i]).is_keyframe) {
        if first_keyframe(r) < r.len() {
            let j = first_keyframe(r) as int;
            assert(r[j].1 == history[lo + j].is_keyframe);
        }
        assert(r.skip(r.len() as int).len() == 0);
    }
    if after >= n {
        assert(r.len() == 0);
    }
}

} // verus!
