//! Binary IPC protocol of the keystroke counter.
//!
//! Fixed-size 12-byte messages, no length prefix:
//!
//! ```text
//! [u64 LE: timestamp_us]  — wall-clock timestamp (microseconds since Unix epoch)
//! [u32 LE: count]         — keystrokes counted in this batch interval
//! ```

use vstd::prelude::*;
use vstd::bytes::*;
use vstd::slice::slice_subrange;

use crate::wire::{ByteCursor, WireError, extend_bytes};

verus! {

broadcast use vstd::seq_lib::group_seq_properties;

/// Size of one batch message in bytes.
pub const BATCH_SIZE: usize = 12;

/// One batch of keystroke counts covering one batch interval.
#[derive(Debug, Clone, Copy, PartialEq, Eq)]
pub struct Batch {
    /// Wall-clock timestamp in microseconds since the Unix epoch.
    pub t: u64,
    /// Number of keystrokes counted during this batch interval.
    pub c: u32,
}

/// The 12 bytes written for a batch.
pub open spec fn batch_bytes(b: Batch) -> Seq<u8> {
    spec_u64_to_le_bytes(b.t) + spec_u32_to_le_bytes(b.c)
}

/// What reading one batch from `s` yields: `None` when no byte is left,
/// an error when the stream stops inside a batch.
pub open spec fn spec_read_batch(s: Seq<u8>) -> Result<Option<Batch>, WireError> {
    if s.len() == 0 {
        Ok(None)
    } else if s.len() < BATCH_SIZE {
        Err(WireError::UnexpectedEof)
    } else {
        Ok(
            Some(
                Batch {
                    t: spec_u64_from_le_bytes(s.subrange(0, 8)),
                    c: spec_u32_from_le_bytes(s.subrange(8, 12)),
                },
            ),
        )
    }
}

/// Writes a batch as a 12-byte binary message.
pub fn write_batch(w: &mut Vec<u8>, batch: &Batch)
    ensures
        final(w)@ == old(w)@ + batch_bytes(*batch),
{
    extend_bytes(w, u64_to_le_bytes(batch.t).as_slice());
    extend_bytes(w, u32_to_le_bytes(batch.c).as_slice());
}

/// Reads one batch from `r`.
///
/// Returns `Ok(None)` at a clean end of stream and an error when the
/// stream ends in the middle of a batch (the cursor then stands at the
/// end); otherwise the cursor moves past the 12 bytes read.
pub fn read_batch(r: &mut ByteCursor) -> (res: Result<Option<Batch>, WireError>)
    ensures
        final(r).data() == old(r).data(),
        res == spec_read_batch(old(r).remaining()),
        final(r).pos() == old(r).pos() + if old(r).remaining().len() >= BATCH_SIZE {
            BATCH_SIZE as nat
        } else {
            old(r).remaining().len()
        },
{
    let ghost s = r.remaining();
    if r.remaining_len() == 0 {
        return Ok(None);
    }
    match r.take(BATCH_SIZE) {
        None => Err(WireError::UnexpectedEof),
        Some(buf) => {
            let t = u64_from_le_bytes(slice_subrange(buf.as_slice(), 0, 8));
            let c = u32_from_le_bytes(slice_subrange(buf.as_slice(), 8, 12));
            assert(buf@.subrange(0, 8) == s.subrange(0, 8));
            assert(buf@.subrange(8, 12) == s.subrange(8, 12));
            Ok(Some(Batch { t, c }))
        },
    }
}

/// A batch reads back as itself from the bytes written for it, whatever
/// follows in the stream.
pub proof fn lemma_round_trip(b: Batch, rest: Seq<u8>)
    ensures
        spec_read_batch(batch_bytes(b) + rest) == Ok::<Option<Batch>, WireError>(Some(b)),
{
    lemma_auto_spec_u32_to_from_le_bytes();
    lemma_auto_spec_u64_to_from_le_bytes();
    let s = batch_bytes(b) + rest;
    assert(s.subrange(0, 8) == spec_u64_to_le_bytes(b.t));
    assert(s.subrange(8, 12) == spec_u32_to_le_bytes(b.c));
}

} // verus!
