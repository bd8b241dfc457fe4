//! Circular audio chunk buffer.
//!
//! Every PCM chunk is independently decodable, so readers need no keyframe
//! gating: a reader asks for every chunk after the last sequence number it
//! has seen. Chunks are serialized once, when pushed, as
//! `[u64 LE: timestamp_us][raw PCM bytes]`.

use vstd::prelude::*;
use vstd::bytes::*;

use crate::audio_ipc::{AudioFrame, AudioParams};
use crate::seq_filter::{
    lemma_filter_all_kept, lemma_filter_all_rejected, lemma_filter_increasing, lemma_filter_split,
};
use crate::wire::extend_bytes;

verus! {

broadcast use vstd::seq_lib::group_seq_properties;

/// A buffered chunk: its sequence number and pre-serialized payload.
#[derive(Debug)]
pub struct BufferedChunk {
    pub sequence: u32,
    pub payload: Vec<u8>,
}

impl View for BufferedChunk {
    type V = (u32, Seq<u8>);

    open spec fn view(&self) -> (u32, Seq<u8>) {
        (self.sequence, self.payload@)
    }
}

/// The abstract state of an audio buffer: its capacity, the buffered
/// chunks oldest first, the sequence number the next chunk receives, and
/// the cached format parameters.
pub struct AudioBufferModel {
    pub capacity: nat,
    pub entries: Seq<(u32, Seq<u8>)>,
    pub next_sequence: nat,
    pub params: Option<AudioParams>,
}

/// The payload stored for a chunk: `[u64 LE timestamp_us][PCM bytes]`.
pub open spec fn chunk_payload(timestamp_us: u64, pcm: Seq<u8>) -> Seq<u8> {
    spec_u64_to_le_bytes(timestamp_us) + pcm
}

/// The last `cap` elements of `s` (all of `s` when it is shorter).
pub open spec fn keep_last<T>(s: Seq<T>, cap: nat) -> Seq<T> {
    if s.len() <= cap {
        s
    } else {
        s.skip(s.len() - cap)
    }
}

/// The buffer after one chunk with `payload` is pushed: the chunk takes
/// the next sequence number and the oldest chunk leaves once the buffer
/// is full.
pub open spec fn model_push(m: AudioBufferModel, payload: Seq<u8>) -> AudioBufferModel {
    AudioBufferModel {
        entries: keep_last(m.entries.push((m.next_sequence as u32, payload)), m.capacity),
        next_sequence: m.next_sequence + 1,
        ..m
    }
}

/// The cursor a reader effectively uses: one beyond the newest sequence
/// number ever assigned (a cursor from before a restart) counts as 0.
pub open spec fn effective_after(m: AudioBufferModel, after: u32) -> nat {
    if after > m.next_sequence - 1 {
        0
    } else {
        after as nat
    }
}

/// The chunks a reader with cursor `after` receives, oldest first.
pub open spec fn model_after(m: AudioBufferModel, after: u32) -> Seq<(u32, Seq<u8>)> {
    let a = effective_after(m, after);
    m.entries.filter(|e: (u32, Seq<u8>)| e.0 > a)
}

/// The empty buffer of the given capacity.
pub open spec fn model_empty(capacity: nat) -> AudioBufferModel {
    AudioBufferModel { capacity, entries: Seq::empty(), next_sequence: 1, params: None }
}

/// The invariant of every reachable buffer state: at most `capacity`
/// chunks, numbered consecutively and ending just before `next_sequence`.
pub open spec fn model_wf(m: AudioBufferModel) -> bool {
    &&& m.entries.len() <= m.capacity
    &&& m.next_sequence <= u32::MAX
    &&& m.next_sequence >= m.entries.len() + 1
    &&& forall|i: int|
        0 <= i < m.entries.len() ==> #[trigger] m.entries[i].0 == m.next_sequence
            - m.entries.len() + i
}

/// Fixed-capacity circular buffer of audio chunks.
///
/// Several readers can poll it concurrently without draining it: reads
/// filter by sequence number instead of removing chunks.
pub struct AudioBuffer {
    chunks: Vec<Option<BufferedChunk>>,
    capacity: usize,
    /// Slot of the oldest buffered chunk.
    start: usize,
    count: usize,
    next_sequence: u32,
    audio_params: Option<AudioParams>,
}

/// Slot holding the `i`-th oldest element of a ring of `cap` slots whose
/// oldest element sits in slot `start`.
pub open spec fn ring_slot(start: int, cap: int, i: int) -> int {
    if start + i < cap {
        start + i
    } else {
        start + i - cap
    }
}

impl AudioBuffer {
    spec fn slot(&self, i: int) -> int {
        ring_slot(self.start as int, self.capacity as int, i)
    }

    spec fn entry(&self, i: int) -> (u32, Seq<u8>) {
        self.chunks@[self.slot(i)]->0@
    }

    pub closed spec fn wf(&self) -> bool {
        &&& self.chunks@.len() == self.capacity
        &&& self.count <= self.capacity
        &&& (self.start < self.capacity || (self.capacity == 0 && self.start == 0))
        &&& self.next_sequence >= self.count + 1
        &&& forall|i: int|
            0 <= i < self.count ==> {
                &&& #[trigger] self.chunks@[ring_slot(self.start as int, self.capacity as int, i)] is Some
                &&& self.chunks@[ring_slot(
                    self.start as int,
                    self.capacity as int,
                    i,
                )]->0.sequence == self.next_sequence - self.count + i
            }
    }
}

impl View for AudioBuffer {
    type V = AudioBufferModel;

    closed spec fn view(&self) -> AudioBufferModel {
        AudioBufferModel {
            capacity: self.capacity as nat,
            entries: Seq::new(self.count as nat, |i: int| self.entry(i)),
            next_sequence: self.next_sequence as nat,
            params: self.audio_params,
        }
    }
}

impl AudioBuffer {
    /// Every well-formed buffer is in a reachable abstract state.
    pub proof fn lemma_model_wf(&self)
        requires
            self.wf(),
        ensures
            model_wf(self@),
    {
    }

    /// An empty buffer holding at most `capacity` chunks.
    pub fn new(capacity: usize) -> (b: AudioBuffer)
        ensures
            b.wf(),
            b@ == model_empty(capacity as nat),
    {
        let mut chunks: Vec<Option<BufferedChunk>> = Vec::new();
        let mut i: usize = 0;
        while i < capacity
            invariant
                i <= capacity,
                chunks@.len() == i,
            decreases capacity - i,
        {
            chunks.push(None);
            i = i + 1;
        }
        let b = AudioBuffer {
            chunks,
            capacity,
            start: 0,
            count: 0,
            next_sequence: 1,
            audio_params: None,
        };
        assert(b@.entries == Seq::<(u32, Seq<u8>)>::empty());
        b
    }

    /// Whether a chunk can be pushed: the buffer has room for one and its
    /// sequence numbers are not exhausted.
    pub fn accepts_chunk(&self) -> (b: bool)
        requires
            self.wf(),
        ensures
            b == (self@.capacity > 0 && self@.next_sequence < u32::MAX),
    {
        self.capacity > 0 && self.next_sequence < u32::MAX
    }

    /// Caches the audio format parameters.
    pub fn set_audio_params(&mut self, params: AudioParams)
        requires
            old(self).wf(),
        ensures
            final(self).wf(),
            final(self)@ == (AudioBufferModel { params: Some(params), ..old(self)@ }),
    {
        let ghost entries = self@.entries;
        self.audio_params = Some(params);
        assert(self@.entries =~= entries);
    }

    /// The cached audio format parameters, if any arrived yet.
    pub fn get_audio_params(&self) -> (p: Option<&AudioParams>)
        ensures
            match p {
                Some(x) => self@.params == Some(*x),
                None => self@.params is None,
            },
    {
        self.audio_params.as_ref()
    }

    /// Clears every chunk, the cached parameters and the sequence counter.
    pub fn reset(&mut self)
        requires
            old(self).wf(),
        ensures
            final(self).wf(),
            final(self)@ == model_empty(old(self)@.capacity),
    {
        let n = self.chunks.len();
        let mut i: usize = 0;
        while i < n
            invariant
                i <= n,
                n == self.chunks@.len(),
                n == self.capacity,
                self.start < self.capacity || (self.capacity == 0 && self.start == 0),
            decreases n - i,
        {
            self.chunks.set(i, None);
            i = i + 1;
        }
        self.start = 0;
        self.count = 0;
        self.next_sequence = 1;
        self.audio_params = None;
        assert(self@.entries == Seq::<(u32, Seq<u8>)>::empty());
    }

    /// Buffers one chunk under the next sequence number, dropping the
    /// oldest chunk when the buffer is full.
    #[verifier::rlimit(30)]
    pub fn push_chunk(&mut self, chunk: &AudioFrame)
        requires
            old(self).wf(),
            old(self)@.capacity > 0,
            old(self)@.next_sequence < u32::MAX,
        ensures
            final(self).wf(),
            final(self)@ == model_push(
                old(self)@,
                chunk_payload(chunk.timestamp_us, chunk.pcm_data@),
            ),
    {
        let ghost old_model = self@;
        let sequence = self.next_sequence;
        self.next_sequence = self.next_sequence + 1;

        let mut payload: Vec<u8> = Vec::new();
        extend_bytes(&mut payload, u64_to_le_bytes(chunk.timestamp_us).as_slice());
        extend_bytes(&mut payload, chunk.pcm_data.as_slice());
        let ghost pv = payload@;
        let ghost new_entry = (sequence, pv);

        let cap = self.capacity;
        if self.count < cap {
            let idx = if self.count < cap - self.start {
                self.start + self.count
            } else {
                self.count - (cap - self.start)
            };
            self.chunks.set(idx, Some(BufferedChunk { sequence, payload }));
            self.count = self.count + 1;
            proof {
                assert forall|i: int| 0 <= i < self.count implies {
                    &&& #[trigger] self.chunks@[ring_slot(self.start as int, self.capacity as int, i)] is Some
                    &&& self.chunks@[ring_slot(
                        self.start as int,
                        self.capacity as int,
                        i,
                    )]->0.sequence == self.next_sequence - self.count + i
                } by {
                    if i < self.count - 1 {
                        assert(self.slot(i) != idx);
                        assert(self.slot(i) == old(self).slot(i));
                    } else {
                        assert(self.slot(i) == idx);
                    }
                }
                assert(self@.entries =~= old_model.entries.push(new_entry));
            }
        } else {
            let idx = self.start;
            self.chunks.set(idx, Some(BufferedChunk { sequence, payload }));
            self.start = if self.start + 1 < cap {
                self.start + 1
            } else {
                0
            };
            proof {
                assert forall|i: int| 0 <= i < self.count implies {
                    &&& #[trigger] self.chunks@[ring_slot(self.start as int, self.capacity as int, i)] is Some
                    &&& self.chunks@[ring_slot(
                        self.start as int,
                        self.capacity as int,
                        i,
                    )]->0.sequence == self.next_sequence - self.count + i
                } by {
                    if i < self.count - 1 {
                        assert(self.slot(i) != idx);
                        assert(self.slot(i) == old(self).slot(i + 1));
                    }
                }
                let pushed = old_model.entries.push(new_entry);
                assert(self@.entries =~= pushed.skip(pushed.len() - cap));
            }
        }
    }

    /// All buffered chunks with a sequence number after `after_sequence`,
    /// oldest first.
    ///
    /// A cursor beyond the newest sequence number ever assigned (one from
    /// before a restart) counts as 0, so such a reader receives every
    /// buffered chunk.
    pub fn get_chunks_after(&self, after_sequence: u32) -> (r: Vec<&BufferedChunk>)
        requires
            self.wf(),
        ensures
            r@.map_values(|c: &BufferedChunk| c@) == model_after(self@, after_sequence),
    {
        let max_seq = self.next_sequence - 1;
        let after = if after_sequence > max_seq {
            0
        } else {
            after_sequence
        };
        let ghost a = effective_after(self@, after_sequence);
        let ghost pred = |e: (u32, Seq<u8>)| e.0 > a;
        let ghost entries = self@.entries;
        let mut result: Vec<&BufferedChunk> = Vec::new();
        let mut i: usize = 0;
        while i < self.count
            invariant
                self.wf(),
                i <= self.count,
                after == a,
                entries == self@.entries,
                pred == (|e: (u32, Seq<u8>)| e.0 > a),
                result@.map_values(|c: &BufferedChunk| c@) == entries.take(i as int).filter(pred),
            decreases self.count - i,
        {
            let idx = if i < self.capacity - self.start {
                self.start + i
            } else {
                i - (self.capacity - self.start)
            };
            assert(idx == self.slot(i as int));
            let slot = &self.chunks[idx];
            let ghost before = result@.map_values(|c: &BufferedChunk| c@);
            match slot {
                Some(chunk) => {
                    proof {
                        assert(entries.take(i as int + 1).drop_last() == entries.take(i as int));
                        assert(entries.take(i as int + 1).last() == chunk@);
                        reveal_with_fuel(Seq::filter, 1);
                    }
                    if chunk.sequence > after {
                        result.push(chunk);
                        assert(result@.map_values(|c: &BufferedChunk| c@) == before.push(chunk@));
                    }
                },
                None => {},
            }
            i = i + 1;
        }
        assert(entries.take(self.count as int) == entries);
        result
    }
}

// ── Laws ────────────────────────────────────────────────────────────────────

/// A new buffer is in a reachable state, and pushing keeps every buffer
/// of positive capacity in one: at most `capacity` chunks, numbered
/// consecutively up to the newest sequence number.
pub proof fn lemma_push_keeps_wf(m: AudioBufferModel, payload: Seq<u8>)
    requires
        model_wf(m),
        m.capacity > 0,
        m.next_sequence < u32::MAX,
    ensures
        model_wf(model_push(m, payload)),
        model_wf(model_empty(m.capacity)),
{
    let pushed = m.entries.push((m.next_sequence as u32, payload));
    let r = model_push(m, payload);
    assert forall|i: int| 0 <= i < r.entries.len() implies #[trigger] r.entries[i].0
        == r.next_sequence - r.entries.len() + i by {
        if pushed.len() > m.capacity {
            assert(r.entries == pushed.skip(1));
            assert(r.entries[i] == pushed[i + 1]);
        } else {
            assert(r.entries == pushed);
        }
        if i + 1 < pushed.len() {
            assert(pushed[i] == m.entries[i]);
        }
    }
}

/// The sequence numbers a reader receives are strictly increasing and all
/// after its effective cursor.
pub proof fn lemma_after_increasing(m: AudioBufferModel, after: u32)
    requires
        model_wf(m),
    ensures
        forall|i: int, j: int|
            0 <= i < j < model_after(m, after).len() ==> model_after(m, after)[i].0 < model_after(
                m,
                after,
            )[j].0,
        forall|i: int|
            0 <= i < model_after(m, after).len() ==> model_after(m, after)[i].0 > effective_after(
                m,
                after,
            ),
{
    broadcast use Seq::lemma_filter_pred;

    let a = effective_after(m, after);
    let pred = |e: (u32, Seq<u8>)| e.0 > a;
    lemma_filter_increasing(m.entries, |e: (u32, Seq<u8>)| e.0 as int, pred);
}

/// A reader whose cursor is the newest sequence number before a push
/// receives exactly the pushed chunk afterwards.
pub proof fn lemma_read_after_push(m: AudioBufferModel, payload: Seq<u8>)
    requires
        model_wf(m),
        m.capacity > 0,
        m.next_sequence < u32::MAX,
    ensures
        model_after(model_push(m, payload), (m.next_sequence - 1) as u32) == seq![
            (m.next_sequence as u32, payload),
        ],
{
    let r = model_push(m, payload);
    let a = (m.next_sequence - 1) as u32;
    assert(effective_after(r, a) == a);
    let pred = |e: (u32, Seq<u8>)| e.0 > a;
    lemma_push_keeps_wf(m, payload);
    lemma_filter_all_rejected(r.entries.drop_last(), pred);
    reveal_with_fuel(Seq::filter, 1);
    assert(r.entries.last() == (m.next_sequence as u32, payload));
    assert(forall|i: int| 0 <= i < r.entries.drop_last().len() ==> r.entries.drop_last()[i] == r.entries[i]);
    assert(r.entries.drop_last().filter(pred) == Seq::<(u32, Seq<u8>)>::empty());
}

/// A reader holding a cursor from before a restart (beyond every sequence
/// number assigned so far) receives every buffered chunk.
pub proof fn lemma_stale_cursor_reads_all(m: AudioBufferModel, after: u32)
    requires
        model_wf(m),
        after > m.next_sequence - 1,
    ensures
        model_after(m, after) == m.entries,
{
    let pred = |e: (u32, Seq<u8>)| e.0 > 0nat;
    lemma_filter_all_kept(m.entries, pred);
}

/// After a reset the next chunk pushed is numbered 1 again.
pub proof fn lemma_reset_restarts_sequence(capacity: nat, payload: Seq<u8>)
    requires
        capacity > 0,
    ensures
        model_push(model_empty(capacity), payload).entries == seq![(1u32, payload)],
{
}

/// The buffer of the given capacity after the chunks of `history` (each a
/// timestamp and its PCM bytes) were pushed, oldest first, onto an empty
/// buffer (as made by `new` or `reset`).
pub open spec fn model_pushes(capacity: nat, history: Seq<(u64, Seq<u8>)>) -> AudioBufferModel
    decreases history.len(),
{
    if history.len() == 0 {
        model_empty(capacity)
    } else {
        model_push(
            model_pushes(capacity, history.drop_last()),
            chunk_payload(history.last().0, history.last().1),
        )
    }
}

/// The chunks of `history` from index `lo` on, each under its sequence
/// number (the `i`-th chunk pushed, counting from 0, is numbered `i + 1`).
pub open spec fn chunk_range(history: Seq<(u64, Seq<u8>)>, lo: int) -> Seq<(u32, Seq<u8>)> {
    Seq::new(
        (history.len() - lo) as nat,
        |k: int| ((lo + 1 + k) as u32, chunk_payload(history[lo + k].0, history[lo + k].1)),
    )
}

/// After `n` pushes a buffer holds the last `min(n, capacity)` chunks and
/// numbers the next one `n + 1`.
proof fn lemma_pushes_window(capacity: nat, history: Seq<(u64, Seq<u8>)>)
    requires
        capacity > 0,
        history.len() < u32::MAX,
    ensures
        ({
            let n = history.len() as int;
            let w = if n <= capacity { n } else { capacity as int };
            let m = model_pushes(capacity, history);
            &&& m.entries == chunk_range(history, n - w)
            &&& m.next_sequence == n + 1
            &&& m.capacity == capacity
        }),
    decreases history.len(),
{
    let n = history.len() as int;
    if n > 0 {
        let d = history.drop_last();
        lemma_pushes_window(capacity, d);
        let prev = model_pushes(capacity, d);
        let last = (n as u32, chunk_payload(history.last().0, history.last().1));
        let pushed = prev.entries.push(last);
        let m = model_pushes(capacity, history);
        assert(m.entries == keep_last(pushed, capacity));
        if n <= capacity {
            assert forall|k: int| 0 <= k < n implies #[trigger] pushed[k] == chunk_range(history, 0)[k] by {
                if k < n - 1 {
                    assert(d[k] == history[k]);
                }
            }
            assert(m.entries =~= chunk_range(history, 0));
        } else {
            let lo = n - capacity;
            assert forall|k: int| 0 <= k < capacity implies #[trigger] pushed.skip(1)[k] == chunk_range(
                history,
                lo,
            )[k] by {
                if k + 1 < capacity {
                    assert(d[lo + k] == history[lo + k]);
                }
            }
            assert(m.entries =~= chunk_range(history, lo));
        }
    } else {
        assert(model_pushes(capacity, history).entries =~= chunk_range(history, 0));
    }
}

/// What a read returns after any sequence of pushes onto an empty buffer
/// of positive capacity: with `n` chunks pushed, a cursor beyond `n`
/// counting as 0, exactly the chunks numbered from
/// `max(cursor, n - min(n, capacity)) + 1` to `n`, in increasing order,
/// each with the payload of the chunk pushed under that number.
pub proof fn lemma_chunks_after_range(capacity: nat, history: Seq<(u64, Seq<u8>)>, after: u32)
    requires
        capacity > 0,
        history.len() < u32::MAX,
    ensures
        ({
            let n = history.len() as int;
            let a = if after > n { 0 } else { after as int };
            let oldest = if n <= capacity { 0 } else { n - capacity };
            let lo = if a >= oldest { a } else { oldest };
            &&& model_pushes(capacity, history).next_sequence == n + 1
            &&& model_after(model_pushes(capacity, history), after) == chunk_range(history, lo)
        }),
{
    lemma_pushes_window(capacity, history);
    let n = history.len() as int;
    let m = model_pushes(capacity, history);
    let a = effective_after(m, after);
    let oldest = if n <= capacity { 0 } else { n - capacity };
    let lo = if a >= oldest { a as int } else { oldest };
    let k = lo - oldest;
    let pred = |e: (u32, Seq<u8>)| e.0 > a;
    assert forall|i: int| 0 <= i < k implies !pred(#[trigger] m.entries[i]) by {}
    assert forall|i: int| k <= i < m.entries.len() implies pred(#[trigger] m.entries[i]) by {}
    lemma_filter_split(m.entries, pred, k);
    assert(m.entries.skip(k) =~= chunk_range(history, lo));
}

} // verus!
