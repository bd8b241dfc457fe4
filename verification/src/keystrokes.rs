//! Counting of the keystroke counter process.
//!
//! The keyboard hook never looks at which key was pressed: it only counts
//! key-down events (plain and system, auto-repeat included). Every batch
//! interval the count is drained into a batch.

use vstd::prelude::*;

use crate::kpm_ipc::Batch;

verus! {

/// The window message of a key press.
pub const WM_KEYDOWN: usize = 0x0100;

/// The window message of a system key press (with Alt).
pub const WM_SYSKEYDOWN: usize = 0x0104;

/// Whether a hook notification counts as a keystroke: the hook code is
/// non-negative and the message is a key-down.
pub open spec fn is_keystroke(ncode: i32, message: usize) -> bool {
    ncode >= 0 && (message == WM_KEYDOWN || message == WM_SYSKEYDOWN)
}

/// Whether a hook notification counts as a keystroke.
pub fn counts_as_keystroke(ncode: i32, message: usize) -> (b: bool)
    ensures
        b == is_keystroke(ncode, message),
{
    ncode >= 0 && (message == WM_KEYDOWN || message == WM_SYSKEYDOWN)
}

/// Keystrokes counted since the last batch.
pub struct KeystrokeCounter {
    pub count: u32,
}

impl KeystrokeCounter {
    pub fn new() -> (c: KeystrokeCounter)
        ensures
            c.count == 0,
    {
        KeystrokeCounter { count: 0 }
    }

    /// Records a hook notification; the count wraps around at `u32::MAX`.
    pub fn record(&mut self, ncode: i32, message: usize)
        ensures
            final(self).count == if is_keystroke(ncode, message) {
                if old(self).count == u32::MAX {
                    0
                } else {
                    (old(self).count + 1) as u32
                }
            } else {
                old(self).count
            },
    {
        if counts_as_keystroke(ncode, message) {
            self.count = self.count.wrapping_add(1);
        }
    }

    /// The batch for the interval ending at `timestamp_us`; the count
    /// starts over at 0.
    pub fn drain(&mut self, timestamp_us: u64) -> (b: Batch)
        ensures
            b.t == timestamp_us,
            b.c == old(self).count,
            final(self).count == 0,
    {
        let c = self.count;
        self.count = 0;
        Batch { t: timestamp_us, c }
    }
}

} // verus!
