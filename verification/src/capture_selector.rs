//! Foreground-window selection of the desktop app.
//!
//! At most every two seconds the caller reports the foreground window and
//! its executable path; the selector switches the capture target when the
//! foreground window changed and its executable is one of the known editors
//! or game folders.

use vstd::prelude::*;

use crate::text::{chars_of, contains_chars, contains_sub};

verus! {

/// The minimum time between two checks, in microseconds.
pub const CHECK_INTERVAL_US: u64 = 2_000_000;

/// Executable paths (or path fragments) whose windows are captured.
pub open spec fn capture_list() -> Seq<Seq<char>> {
    seq![
        "devenv.exe"@,
        "C:\\Program Files\\Microsoft Visual Studio Code\\Code.exe"@,
        "C:\\Program Files\\JetBrains\\"@,
        "D:\\7-Games\\"@,
        "D:\\7-Games.Steam\\steamapps\\common\\"@,
        "E:\\Nekomaru.Games\\"@,
        "E:\\SteamLibrary\\steamapps\\common\\"@,
    ]
}

/// Executable-path fragments whose windows are never captured.
pub open spec fn skip_list() -> Seq<Seq<char>> {
    seq!["gogh.exe"@]
}

/// A path is captured when it contains an entry of the capture list and no
/// entry of the skip list (case-sensitive).
pub open spec fn path_captured(path: Seq<char>) -> bool {
    (exists|i: int| 0 <= i < capture_list().len() && contains_sub(path, #[trigger] capture_list()[i]))
        && !(exists|j: int| 0 <= j < skip_list().len() && contains_sub(path, #[trigger] skip_list()[j]))
}

/// Whether `path` contains one of `list`.
fn contains_any(path: &[char], list: &[&str]) -> (b: bool)
    ensures
        b == exists|i: int| 0 <= i < list@.len() && contains_sub(path@, #[trigger] list@[i]@),
{
    let mut i: usize = 0;
    while i < list.len()
        invariant
            i <= list@.len(),
            forall|j: int| 0 <= j < i ==> !contains_sub(path@, #[trigger] list@[j]@),
        decreases list@.len() - i,
    {
        if contains_chars(path, chars_of(list[i]).as_slice()) {
            return true;
        }
        i = i + 1;
    }
    false
}

/// Whether windows of the executable at `path` are captured.
pub fn should_capture(path: &str) -> (b: bool)
    ensures
        b == path_captured(path@),
{
    let captured: [&str; 7] = [
        "devenv.exe",
        "C:\\Program Files\\Microsoft Visual Studio Code\\Code.exe",
        "C:\\Program Files\\JetBrains\\",
        "D:\\7-Games\\",
        "D:\\7-Games.Steam\\steamapps\\common\\",
        "E:\\Nekomaru.Games\\",
        "E:\\SteamLibrary\\steamapps\\common\\",
    ];
    let skipped: [&str; 1] = ["gogh.exe"];
    proof {
        assert(captured@.map_values(|s: &str| s@) =~= capture_list());
        assert(skipped@.map_values(|s: &str| s@) =~= skip_list());
    }
    let p = chars_of(path);
    let inc = contains_any(p.as_slice(), captured.as_slice());
    let exc = contains_any(p.as_slice(), skipped.as_slice());
    proof {
        if inc {
            let i = choose|i: int| 0 <= i < captured@.len() && contains_sub(path@, #[trigger] captured@[i]@);
            assert(capture_list()[i] == captured@[i]@);
        }
        if !inc {
            assert forall|i: int| 0 <= i < capture_list().len() implies !contains_sub(path@, #[trigger] capture_list()[i]) by {
                assert(capture_list()[i] == captured@[i]@);
            }
        }
        if exc {
            assert(skip_list()[0] == skipped@[0]@);
        }
    }
    inc && !exc
}

/// The desktop app's capture-target selector.
pub struct LiveCaptureWindowSelector {
    /// When the last check ran, in microseconds on the caller's clock.
    pub last_check_us: u64,
    /// The foreground window at the last check (0: none).
    pub last_foreground: usize,
    /// The window last chosen for capture (0: none).
    pub last_capture: usize,
}

impl LiveCaptureWindowSelector {
    /// A selector whose first check may run two seconds after `now_us`.
    pub fn new(now_us: u64) -> (s: LiveCaptureWindowSelector)
        ensures
            s.last_check_us == now_us,
            s.last_foreground == 0,
            s.last_capture == 0,
    {
        LiveCaptureWindowSelector { last_capture: 0, last_check_us: now_us, last_foreground: 0 }
    }

    /// One check at time `now_us`, with the foreground window (0 when there
    /// is none) and its executable path (empty when unknown).
    ///
    /// Returns `true`, storing the window in `hwnd`, when the capture target
    /// changes: at least two seconds passed since the last check, the
    /// foreground window is a different window than at the last check, and
    /// its executable is captured.
    pub fn update(&mut self, now_us: u64, foreground: usize, executable_path: &str, hwnd: &mut usize) -> (changed: bool)
        ensures
            ({
                let elapsed = if now_us >= old(self).last_check_us {
                    now_us - old(self).last_check_us
                } else {
                    0
                };
                if elapsed < CHECK_INTERVAL_US {
                    !changed && *final(self) == *old(self) && *final(hwnd) == *old(hwnd)
                } else if foreground == 0 || foreground == old(self).last_foreground {
                    !changed && *final(self) == (LiveCaptureWindowSelector {
                        last_check_us: now_us,
                        ..*old(self)
                    }) && *final(hwnd) == *old(hwnd)
                } else if !path_captured(executable_path@) {
                    !changed && *final(self) == (LiveCaptureWindowSelector {
                        last_check_us: now_us,
                        last_foreground: foreground,
                        ..*old(self)
                    }) && *final(hwnd) == *old(hwnd)
                } else {
                    changed && *final(self) == (LiveCaptureWindowSelector {
                        last_check_us: now_us,
                        last_foreground: foreground,
                        last_capture: foreground,
                    }) && *final(hwnd) == foreground
                }
            }),
    {
        let elapsed = now_us.saturating_sub(self.last_check_us);
        if elapsed < CHECK_INTERVAL_US {
            return false;
        }
        self.last_check_us = now_us;
        if foreground == 0 || foreground == self.last_foreground {
            return false;
        }
        self.last_foreground = foreground;
        if !should_capture(executable_path) {
            return false;
        }
        self.last_capture = foreground;
        *hwnd = foreground;
        true
    }
}

} // verus!
