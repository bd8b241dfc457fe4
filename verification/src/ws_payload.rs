//! Binary batches pushed to WebSocket viewers, and the per-connection
//! cursors that decide what each push carries.
//!
//! Video batch (little-endian):
//! ```text
//! [u32: generation][u32: num_frames]
//! per frame: [u32: sequence][u64: timestamp_us][u8: is_keyframe]
//!            [u32: payload_length][payload bytes]
//! ```
//! Audio batch: `[u32: num_chunks]`, then per chunk
//! `[u32: sequence][u32: payload_length][payload bytes]`.
//! A push with nothing new is empty.

use vstd::prelude::*;
use vstd::bytes::*;

use crate::audio_buffer::{AudioBuffer, AudioBufferModel, effective_after, model_wf};
use crate::seq_filter::lemma_filter_increasing;
use crate::streams::{StreamModel, StreamRegistry};
use crate::video_buffer::{FrameEntry, model_after};
use crate::video_ipc::bool_byte;
use crate::wire::extend_bytes;

verus! {

broadcast use vstd::seq_lib::group_seq_properties;

/// One chunk of an audio batch.
pub open spec fn chunk_record(c: (u32, Seq<u8>)) -> Seq<u8> {
    spec_u32_to_le_bytes(c.0) + spec_u32_to_le_bytes(c.1.len() as u32) + c.1
}

pub open spec fn chunks_bytes(cs: Seq<(u32, Seq<u8>)>) -> Seq<u8>
    decreases cs.len(),
{
    if cs.len() == 0 {
        Seq::empty()
    } else {
        chunks_bytes(cs.drop_last()) + chunk_record(cs.last())
    }
}

/// The audio batch for a cursor, and the cursor after it: empty and
/// unchanged when nothing is new, else every new chunk and the sequence
/// number of the newest.
pub open spec fn audio_batch(b: AudioBufferModel, after: u32) -> (Seq<u8>, u32) {
    let cs = crate::audio_buffer::model_after(b, after);
    if cs.len() == 0 {
        (Seq::empty(), after)
    } else {
        (spec_u32_to_le_bytes(cs.len() as u32) + chunks_bytes(cs), cs.last().0)
    }
}

/// One frame of a video batch.
pub open spec fn frame_record(f: FrameEntry) -> Seq<u8> {
    spec_u32_to_le_bytes(f.0) + spec_u64_to_le_bytes(f.2) + seq![bool_byte(f.1)]
        + spec_u32_to_le_bytes(f.3.len() as u32) + f.3
}

pub open spec fn frames_bytes(fs: Seq<FrameEntry>) -> Seq<u8>
    decreases fs.len(),
{
    if fs.len() == 0 {
        Seq::empty()
    } else {
        frames_bytes(fs.drop_last()) + frame_record(fs.last())
    }
}

/// The video batch of a stream for a cursor, the stream's generation and
/// the cursor after the batch.
pub open spec fn video_batch(s: StreamModel, after: u32) -> (Seq<u8>, u32, u32) {
    let fs = model_after(s.buffer, after);
    let g = s.generation as u32;
    if fs.len() == 0 {
        (Seq::empty(), g, after)
    } else {
        (
            spec_u32_to_le_bytes(g) + spec_u32_to_le_bytes(fs.len() as u32) + frames_bytes(fs),
            g,
            fs.last().0,
        )
    }
}

/// Serializes the audio chunks after `after`; returns the batch and the
/// cursor after it.
pub fn serialize_chunks(buffer: &AudioBuffer, after: u32) -> (r: (Vec<u8>, u32))
    requires
        buffer.wf(),
    ensures
        (r.0@, r.1) == audio_batch(buffer@, after),
{
    let chunks = buffer.get_chunks_after(after);
    let ghost cs = chunks@.map_values(|c: &crate::audio_buffer::BufferedChunk| c@);
    if chunks.len() == 0 {
        return (Vec::new(), after);
    }
    let mut buf: Vec<u8> = Vec::new();
    extend_bytes(&mut buf, u32_to_le_bytes(chunks.len() as u32).as_slice());
    let ghost head = buf@;
    let mut last_seq = after;
    let mut i: usize = 0;
    while i < chunks.len()
        invariant
            cs == chunks@.map_values(|c: &crate::audio_buffer::BufferedChunk| c@),
            i <= chunks@.len(),
            buf@ == head + chunks_bytes(cs.take(i as int)),
            i > 0 ==> last_seq == cs[i - 1].0,
        decreases chunks@.len() - i,
    {
        let ch = chunks[i];
        let ghost before = buf@;
        extend_bytes(&mut buf, u32_to_le_bytes(ch.sequence).as_slice());
        extend_bytes(&mut buf, u32_to_le_bytes(ch.payload.len() as u32).as_slice());
        extend_bytes(&mut buf, ch.payload.as_slice());
        proof {
            assert(cs.take(i + 1).drop_last() == cs.take(i as int));
            assert(cs[i as int] == ch@);
            assert(buf@ == before + chunk_record(ch@));
        }
        last_seq = ch.sequence;
        i = i + 1;
    }
    assert(cs.take(chunks@.len() as int) == cs);
    (buf, last_seq)
}

/// Serializes the frames of stream `id` after `after`; returns the batch,
/// the stream's generation and the cursor after the batch, or `None` when
/// there is no such stream.
pub fn serialize_frames(registry: &StreamRegistry, id: &str, after: u32) -> (r: Option<(Vec<u8>, u32, u32)>)
    requires
        registry.wf(),
    ensures
        match r {
            Some((b, g, s)) => registry@.streams.contains_key(id@) && (b@, g, s) == video_batch(
                registry@.streams[id@],
                after,
            ),
            None => !registry@.streams.contains_key(id@),
        },
{
    let stream = match registry.get(id) {
        Some(s) => s,
        None => return None,
    };
    let generation = stream.generation;
    let frames = stream.buffer.get_frames_after(after);
    let ghost fs = frames@.map_values(|f: &crate::video_buffer::BufferedFrame| f@);
    if frames.len() == 0 {
        return Some((Vec::new(), generation, after));
    }
    let mut buf: Vec<u8> = Vec::new();
    extend_bytes(&mut buf, u32_to_le_bytes(generation).as_slice());
    extend_bytes(&mut buf, u32_to_le_bytes(frames.len() as u32).as_slice());
    let ghost head = buf@;
    let mut last_seq = after;
    let mut i: usize = 0;
    while i < frames.len()
        invariant
            fs == frames@.map_values(|f: &crate::video_buffer::BufferedFrame| f@),
            i <= frames@.len(),
            buf@ == head + frames_bytes(fs.take(i as int)),
            i > 0 ==> last_seq == fs[i - 1].0,
        decreases frames@.len() - i,
    {
        let f = frames[i];
        let ghost before = buf@;
        extend_bytes(&mut buf, u32_to_le_bytes(f.sequence).as_slice());
        extend_bytes(&mut buf, u64_to_le_bytes(f.timestamp_us).as_slice());
        buf.push(if f.is_keyframe { 1u8 } else { 0u8 });
        extend_bytes(&mut buf, u32_to_le_bytes(f.payload.len() as u32).as_slice());
        extend_bytes(&mut buf, f.payload.as_slice());
        proof {
            assert(fs.take(i + 1).drop_last() == fs.take(i as int));
            assert(fs[i as int] == f@);
            assert(buf@ == before + frame_record(f@));
        }
        last_seq = f.sequence;
        i = i + 1;
    }
    assert(fs.take(frames@.len() as int) == fs);
    Some((buf, generation, last_seq))
}

/// A video viewer's position: the newest sequence number it received and
/// the generation of the stream it reads.
pub struct VideoCursor {
    pub last_seq: u32,
    pub current_gen: u32,
}

/// An audio viewer's position: the newest sequence number it received.
pub struct AudioCursor {
    pub last_seq: u32,
}

impl VideoCursor {
    /// A viewer connecting to stream `id` with cursor `after` (0 for a first
    /// request): the catch-up batch and the cursor after it, or `None` when
    /// there is no such stream.
    pub fn connect(registry: &StreamRegistry, id: &str, after: u32) -> (r: Option<(VideoCursor, Vec<u8>)>)
        requires
            registry.wf(),
        ensures
            match r {
                Some((c, b)) => {
                    let (b0, g0, s0) = video_batch(registry@.streams[id@], after);
                    &&& registry@.streams.contains_key(id@)
                    &&& b@ == b0
                    &&& c.current_gen == g0
                    &&& c.last_seq == (if b0.len() == 0 { after } else { s0 })
                },
                None => !registry@.streams.contains_key(id@),
            },
    {
        match serialize_frames(registry, id, after) {
            Some((buf, generation, new_seq)) => {
                let last_seq = if buf.len() == 0 {
                    after
                } else {
                    new_seq
                };
                Some((VideoCursor { last_seq, current_gen: generation }, buf))
            },
            None => None,
        }
    }

    /// The batch to push after a notification, or `None` when the stream is
    /// gone (the connection then closes). An empty batch sends nothing.
    ///
    /// When the stream's generation changed, its buffer was reset and the
    /// cursor is stale: if the stale cursor yields nothing the viewer starts
    /// over at cursor 0 (from the first keyframe).
    pub fn next_batch(&mut self, registry: &StreamRegistry, id: &str) -> (r: Option<Vec<u8>>)
        requires
            registry.wf(),
        ensures
            !registry@.streams.contains_key(id@) ==> r is None,
            registry@.streams.contains_key(id@) ==> {
                let s = registry@.streams[id@];
                let (b, g, n) = video_batch(s, old(self).last_seq);
                let (b0, g0, n0) = video_batch(s, 0);
                &&& r is Some
                &&& final(self).current_gen == g
                &&& if g != old(self).current_gen && n == old(self).last_seq {
                    &&& r->0@ == b0
                    &&& final(self).last_seq == (if b0.len() == 0 { 0 } else { n0 })
                } else {
                    &&& r->0@ == b
                    &&& final(self).last_seq == (if b.len() == 0 { old(self).last_seq } else { n })
                }
            },
    {
        let (buf, generation, new_seq) = match serialize_frames(registry, id, self.last_seq) {
            Some(t) => t,
            None => return None,
        };
        if generation != self.current_gen {
            self.current_gen = generation;
            if new_seq == self.last_seq {
                self.last_seq = 0;
                let (buf0, _, seq0) = match serialize_frames(registry, id, 0) {
                    Some(t) => t,
                    None => return None,
                };
                if buf0.len() > 0 {
                    self.last_seq = seq0;
                }
                return Some(buf0);
            }
        }
        if buf.len() > 0 {
            self.last_seq = new_seq;
        }
        Some(buf)
    }
}

impl AudioCursor {
    /// A viewer connecting with cursor `after`: the catch-up batch and the
    /// cursor after it.
    pub fn connect(buffer: &AudioBuffer, after: u32) -> (r: (AudioCursor, Vec<u8>))
        requires
            buffer.wf(),
        ensures
            ({
                let (b, n) = audio_batch(buffer@, after);
                r.1@ == b && r.0.last_seq == n
            }),
    {
        let (buf, new_seq) = serialize_chunks(buffer, after);
        (AudioCursor { last_seq: new_seq }, buf)
    }

    /// The batch to push after a notification (empty: nothing to send).
    pub fn next_batch(&mut self, buffer: &AudioBuffer) -> (r: Vec<u8>)
        requires
            buffer.wf(),
        ensures
            ({
                let (b, n) = audio_batch(buffer@, old(self).last_seq);
                r@ == b && final(self).last_seq == n
            }),
    {
        let (buf, new_seq) = serialize_chunks(buffer, self.last_seq);
        self.last_seq = new_seq;
        buf
    }
}

/// The cursor an audio push leaves behind covers everything it sent: every
/// chunk of the batch is numbered at or below it, and reading again with it
/// returns only chunks newer than all of them, so no chunk is sent twice.
pub proof fn lemma_audio_cursor_covers_batch(b: AudioBufferModel, after: u32)
    requires
        model_wf(b),
    ensures
        ({
            let sent = crate::audio_buffer::model_after(b, after);
            let c = audio_batch(b, after).1;
            &&& forall|i: int| 0 <= i < sent.len() ==> (#[trigger] sent[i]).0 <= c
            &&& sent.len() > 0 ==> sent.last().0 == c
            &&& forall|i: int, j: int|
                0 <= i < sent.len() && 0 <= j < crate::audio_buffer::model_after(b, c).len()
                    ==> (#[trigger] crate::audio_buffer::model_after(b, c)[j]).0 > (#[trigger] sent[i]).0
        }),
{
    broadcast use Seq::lemma_filter_pred;

    let sent = crate::audio_buffer::model_after(b, after);
    let c = audio_batch(b, after).1;
    crate::audio_buffer::lemma_after_increasing(b, after);
    if sent.len() > 0 {
        let a = effective_after(b, after);
        let pred = |e: (u32, Seq<u8>)| e.0 > a;
        lemma_filter_increasing(b.entries, |e: (u32, Seq<u8>)| e.0 as int, pred);
        assert(b.entries.contains(sent[sent.len() - 1]));
        let k = choose|k: int| 0 <= k < b.entries.len() && b.entries[k] == sent[sent.len() - 1];
        assert(b.entries[k].0 == b.next_sequence - b.entries.len() + k);
        assert(effective_after(b, c) == c);
        crate::audio_buffer::lemma_after_increasing(b, c);
        assert forall|i: int| 0 <= i < sent.len() implies (#[trigger] sent[i]).0 <= c by {
            if i < sent.len() - 1 {
                assert(sent[i].0 < sent[sent.len() - 1].0);
            }
        }
    }
}

/// The cursor a video push leaves behind covers everything it sent: every
/// frame of the batch is numbered at or below it, and reading again with it
/// returns only frames newer than all of them.
pub proof fn lemma_video_cursor_covers_batch(s: StreamModel, after: u32)
    requires
        crate::video_buffer::model_wf(s.buffer),
    ensures
        ({
            let sent = model_after(s.buffer, after);
            let c = video_batch(s, after).2;
            &&& forall|i: int| 0 <= i < sent.len() ==> (#[trigger] sent[i]).0 <= c
            &&& sent.len() > 0 ==> sent.last().0 == c
            &&& forall|i: int, j: int|
                0 <= i < sent.len() && 0 <= j < model_after(s.buffer, c).len()
                    ==> (#[trigger] model_after(s.buffer, c)[j]).0 > (#[trigger] sent[i]).0
        }),
{
    let sent = model_after(s.buffer, after);
    let c = video_batch(s, after).2;
    crate::video_buffer::lemma_after_increasing(s.buffer, after);
    crate::video_buffer::lemma_after_increasing(s.buffer, c);
    if sent.len() > 0 {
        assert forall|i: int| 0 <= i < sent.len() implies (#[trigger] sent[i]).0 <= c by {
            if i < sent.len() - 1 {
                assert(sent[i].0 < sent[sent.len() - 1].0);
            }
        }
    }
}

} // verus!
