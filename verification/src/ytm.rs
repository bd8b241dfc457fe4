//! The YouTube Music stream manager.
//!
//! Every poll the caller reports the top-level windows. While a window
//! titled `YouTube Music - Nekomaru LiveUI v2` exists, a crop-mode stream
//! captures its bottom playback bar; when the window disappears the stream
//! is destroyed.

use vstd::prelude::*;

use crate::format::format_hwnd;
use crate::selector::{WindowInfo, hwnd_text};
use crate::streams::{
    CropParams, RegistryModel, StreamRegistry, crop_args, new_stream, replaced_stream,
};
use crate::text::{chars_equal, chars_of};

verus! {

/// Frame rate of the playback-bar capture.
pub const YTM_FPS: u32 = 2;

/// The id of the stream this manager owns.
pub open spec fn ytm_stream_id() -> Seq<char> {
    "youtube-music"@
}

/// The title of the window this manager looks for.
pub open spec fn ytm_title() -> Seq<char> {
    "YouTube Music - Nekomaru LiveUI v2"@
}

/// `n - m`, or 0 when `m` exceeds `n`.
pub open spec fn sat_sub(n: int, m: int) -> int {
    if n >= m {
        n - m
    } else {
        0
    }
}

/// The crop box of the playback bar of a window of the given size.
///
/// Measured over the full window height including a 48 px title bar: the
/// bar is 112 px tall with a 12 px margin below it, and 96 px are trimmed on
/// the right. `None` when the window is too small for a box.
pub open spec fn crop_geometry(window_width: u32, window_height: u32) -> Option<CropParams> {
    let full_height = window_height + 48;
    let min_y = sat_sub(full_height, 124int);
    let max_y = sat_sub(full_height, 12int);
    let max_x = sat_sub(window_width as int, 96int);
    if max_x == 0 || max_y <= min_y {
        None
    } else {
        Some(CropParams { min_x: 0, min_y: min_y as u32, max_x: max_x as u32, max_y: max_y as u32 })
    }
}

/// The crop box of the YouTube Music playback bar (see `crop_geometry`).
pub fn get_youtube_music_crop_geometry(window_width: u32, window_height: u32) -> (r: Option<CropParams>)
    requires
        window_height + 48 <= u32::MAX,
    ensures
        r == crop_geometry(window_width, window_height),
{
    let title_bar: u32 = 48;
    let bar_height: u32 = 112;
    let bottom_margin: u32 = 12;
    let right_margin: u32 = 96;
    let full_height = window_height + title_bar;
    let min_y = full_height.saturating_sub(bar_height + bottom_margin);
    let max_y = full_height.saturating_sub(bottom_margin);
    let max_x = window_width.saturating_sub(right_margin);
    if max_x == 0 || max_y <= min_y {
        return None;
    }
    Some(CropParams { min_x: 0, min_y, max_x, max_y })
}

/// Index of the first window titled like the YouTube Music window.
pub open spec fn first_ytm_window(ws: Seq<WindowInfo>, from: int) -> Option<int>
    decreases ws.len() - from,
{
    if from < 0 || from >= ws.len() {
        None
    } else if ws[from].title@ == ytm_title() {
        Some(from)
    } else {
        first_ytm_window(ws, from + 1)
    }
}

/// Finds the YouTube Music window among `windows`.
pub fn find_ytm_window(windows: &[WindowInfo]) -> (r: Option<usize>)
    ensures
        match r {
            Some(i) => first_ytm_window(windows@, 0) == Some(i as int) && i < windows@.len(),
            None => first_ytm_window(windows@, 0) is None,
        },
{
    let title = chars_of("YouTube Music - Nekomaru LiveUI v2");
    let mut i: usize = 0;
    while i < windows.len()
        invariant
            title@ == ytm_title(),
            i <= windows@.len(),
            first_ytm_window(windows@, 0) == first_ytm_window(windows@, i as int),
        decreases windows@.len() - i,
    {
        if chars_equal(chars_of(windows[i].title.as_str()).as_slice(), title.as_slice()) {
            return Some(i);
        }
        i = i + 1;
    }
    None
}

/// The manager's state: whether it polls, and the window handle text of the
/// window it captures.
pub struct YtmState {
    pub active: bool,
    pub last_known_hwnd: Option<String>,
}

/// What a poll did.
#[derive(Debug)]
pub enum YtmOutcome {
    /// Nothing changed.
    Unchanged,
    /// The window appeared or changed; the stream was replaced in place (or
    /// created). The caller kills the replaced process (when `replaced`) and
    /// spawns `args`.
    Captured { replaced: bool, args: Vec<String> },
    /// The window disappeared; the stream was destroyed (`existed` when
    /// there was one, whose process the caller kills).
    Destroyed { existed: bool },
}

/// The window a poll captures, if any: the first titled like the YouTube
/// Music window.
pub open spec fn ytm_poll_spec(
    last0: Option<Seq<char>>,
    ws: Seq<WindowInfo>,
    reg0: RegistryModel,
    last1: Option<Seq<char>>,
    reg1: RegistryModel,
    out: YtmOutcome,
) -> bool {
    match first_ytm_window(ws, 0) {
        Some(i) => {
            let w = ws[i];
            let h = hwnd_text(w.hwnd);
            if last0 == Some(h) {
                out is Unchanged && last1 == last0 && reg1 == reg0
            } else {
                match crop_geometry(w.width, w.height) {
                    None => out is Unchanged && last1 == last0 && reg1 == reg0,
                    Some(crop) => {
                        let existed = reg0.streams.contains_key(ytm_stream_id());
                        &&& last1 == Some(h)
                        &&& reg1 == (RegistryModel {
                            streams: reg0.streams.insert(
                                ytm_stream_id(),
                                if existed {
                                    replaced_stream(reg0.streams[ytm_stream_id()], h)
                                } else {
                                    new_stream(ytm_stream_id(), h)
                                },
                            ),
                            ..reg0
                        })
                        &&& match out {
                            YtmOutcome::Captured { replaced, args } => replaced == existed
                                && args.deep_view() == crop_args(reg0.exe_path, h, crop, Some(YTM_FPS)),
                            _ => false,
                        }
                    },
                }
            }
        },
        None => if last0 is Some {
            &&& last1 is None
            &&& reg1 == (RegistryModel {
                streams: reg0.streams.remove(ytm_stream_id()),
                ..reg0
            })
            &&& out == (YtmOutcome::Destroyed {
                existed: reg0.streams.contains_key(ytm_stream_id()),
            })
        } else {
            out is Unchanged && last1 == last0 && reg1 == reg0
        },
    }
}

impl YtmState {
    /// An inactive manager.
    pub fn new() -> (s: YtmState)
        ensures
            !s.active,
            s.last_known_hwnd is None,
    {
        YtmState { active: false, last_known_hwnd: None }
    }

    /// Activates polling with no window captured yet; `false` (changing
    /// nothing) when already active. The caller polls once at once and then
    /// every five seconds.
    pub fn start(&mut self) -> (started: bool)
        ensures
            started == !old(self).active,
            final(self).active,
            started ==> final(self).last_known_hwnd is None,
            !started ==> final(self).last_known_hwnd == old(self).last_known_hwnd,
    {
        if self.active {
            return false;
        }
        self.active = true;
        self.last_known_hwnd = None;
        true
    }

    /// Deactivates polling and destroys the stream. `None` (changing
    /// nothing) when not active; otherwise whether the stream existed.
    pub fn stop(&mut self, streams: &mut StreamRegistry) -> (r: Option<bool>)
        requires
            old(streams).wf(),
        ensures
            final(streams).wf(),
            !old(self).active ==> r is None && final(streams)@ == old(streams)@ && final(self).last_known_hwnd
                == old(self).last_known_hwnd,
            old(self).active ==> r == Some(old(streams)@.streams.contains_key(ytm_stream_id()))
                && !final(self).active && final(self).last_known_hwnd is None && final(streams)@ == (
            RegistryModel { streams: old(streams)@.streams.remove(ytm_stream_id()), ..old(streams)@ }),
    {
        if !self.active {
            return None;
        }
        self.active = false;
        self.last_known_hwnd = None;
        Some(streams.destroy_stream("youtube-music"))
    }

    /// One poll over the current top-level windows.
    pub fn poll_step(&mut self, windows: &[WindowInfo], streams: &mut StreamRegistry) -> (out: YtmOutcome)
        requires
            old(streams).wf(),
            match first_ytm_window(windows@, 0) {
                Some(i) => windows@[i].height + 48 <= u32::MAX,
                None => true,
            },
            !old(streams)@.streams.contains_key(ytm_stream_id()) || old(streams)@.streams[ytm_stream_id()].generation < u32::MAX,
        ensures
            final(streams).wf(),
            final(self).active == old(self).active,
            ytm_poll_spec(
                old(self).last_known_hwnd.deep_view(),
                windows@,
                old(streams)@,
                final(self).last_known_hwnd.deep_view(),
                final(streams)@,
                out,
            ),
    {
        match find_ytm_window(windows) {
            Some(i) => {
                let w = &windows[i];
                let hwnd_str = format_hwnd(w.hwnd);
                let same = match &self.last_known_hwnd {
                    Some(h) => *h == hwnd_str,
                    None => false,
                };
                if same {
                    return YtmOutcome::Unchanged;
                }
                let crop = match get_youtube_music_crop_geometry(w.width, w.height) {
                    Some(c) => c,
                    None => return YtmOutcome::Unchanged,
                };
                let (replaced, args) = streams.replace_crop_stream(
                    "youtube-music",
                    hwnd_str.as_str(),
                    &crop,
                    Some(YTM_FPS),
                );
                self.last_known_hwnd = Some(hwnd_str);
                YtmOutcome::Captured { replaced, args }
            },
            None => {
                if self.last_known_hwnd.is_some() {
                    let existed = streams.destroy_stream("youtube-music");
                    self.last_known_hwnd = None;
                    YtmOutcome::Destroyed { existed }
                } else {
                    YtmOutcome::Unchanged
                }
            },
        }
    }
}

} // verus!
