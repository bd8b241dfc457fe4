//! JSON line protocol of the keystroke counter.
//!
//! Each line on the counter's stdout is one compact JSON object:
//!
//! ```json
//! {"t":1710590400123456,"c":5}
//! ```
//!
//! - `t`: wall-clock timestamp in microseconds since the Unix epoch
//! - `c`: number of keystrokes in the batch interval

use vstd::prelude::*;

use crate::format::{decimal_ascii, push_decimal};
use crate::wire::extend_bytes;

verus! {

broadcast use vstd::seq_lib::group_seq_properties;

/// One batch of keystroke counts covering one batch interval.
#[derive(Debug, Clone, Copy, PartialEq, Eq)]
pub struct Batch {
    /// Wall-clock timestamp in microseconds since the Unix epoch.
    pub t: u64,
    /// Number of keystrokes counted during this batch interval.
    pub c: u32,
}

/// The line written for a batch: the compact JSON object with the fields
/// `t` and `c` in that order, then a newline.
pub open spec fn batch_line(b: Batch) -> Seq<u8> {
    seq![123u8, 34u8, 116u8, 34u8, 58u8] + decimal_ascii(b.t as nat) + seq![
        44u8,
        34u8,
        99u8,
        34u8,
        58u8,
    ] + decimal_ascii(b.c as nat) + seq![125u8, 10u8]
}

/// Writes a batch as one newline-terminated JSON line.
pub fn write_batch(w: &mut Vec<u8>, batch: &Batch)
    ensures
        final(w)@ == old(w)@ + batch_line(*batch),
{
    let ghost start = w@;
    // {"t":
    let open_t: [u8; 5] = [123, 34, 116, 34, 58];
    extend_bytes(w, &open_t);
    push_decimal(w, batch.t);
    // ,"c":
    let open_c: [u8; 5] = [44, 34, 99, 34, 58];
    extend_bytes(w, &open_c);
    push_decimal(w, batch.c as u64);
    w.push(125);
    w.push(10);
    proof {
        assert(open_t@ == seq![123u8, 34u8, 116u8, 34u8, 58u8]);
        assert(open_c@ == seq![44u8, 34u8, 99u8, 34u8, 58u8]);
        assert(w@ == start + batch_line(*batch));
    }
}

} // verus!
