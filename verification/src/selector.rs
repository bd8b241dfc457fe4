//! The automatic window selector.
//!
//! Every poll the caller reports the foreground window. When it matches the
//! active preset and is not the window already captured, the selector
//! replaces the `main` stream in place and publishes the window title and
//! live mode as computed strings.

use vstd::prelude::*;

use crate::format::format_hwnd;
use crate::selector_config::{PresetConfig, PresetConfigView, capture_decision, should_capture};
use crate::streams::{
    StreamRegistry, RegistryModel, new_stream, replaced_stream, resample_args,
};
use crate::string_store::{StringStore, StringStoreView};

verus! {

/// Resolution of the capture the selector starts.
pub const DEFAULT_WIDTH: u32 = 1920;
pub const DEFAULT_HEIGHT: u32 = 1200;

/// A top-level window as the window enumeration reports it.
#[derive(Debug)]
pub struct WindowInfo {
    /// Window handle.
    pub hwnd: usize,
    /// Process that owns the window.
    pub pid: u32,
    /// Window title.
    pub title: String,
    /// Full executable path, or empty if inaccessible.
    pub executable_path: String,
    /// Client-area width in pixels.
    pub width: u32,
    /// Client-area height in pixels.
    pub height: u32,
}

/// The id of the stream the selector manages.
pub open spec fn main_stream_id() -> Seq<char> {
    "main"@
}

/// The computed-string keys the selector publishes.
pub open spec fn key_capture_title() -> Seq<char> {
    "$captureWindowTitle"@
}

pub open spec fn key_capture_mode() -> Seq<char> {
    "$captureMode"@
}

pub open spec fn key_live_mode() -> Seq<char> {
    "$liveMode"@
}

/// The selector's status as the API reports it.
#[derive(Debug)]
pub struct SelectorStatus {
    pub active: bool,
    pub current_stream_id: Option<String>,
    pub current_hwnd: Option<String>,
    pub current_title: Option<String>,
}

/// The automatic selector's state.
pub struct SelectorState {
    pub active: bool,
    pub last_capture_hwnd: Option<String>,
    pub last_capture_title: Option<String>,
    pub config: PresetConfig,
}

/// What a poll did.
#[derive(Debug)]
pub enum PollOutcome {
    /// Nothing changed.
    Unchanged,
    /// The captured window kept its handle but changed its title.
    TitleUpdated,
    /// The selector switched the `main` stream to a new window; the caller
    /// kills the replaced process (when `replaced`) and spawns `args`.
    Switched { replaced: bool, args: Vec<String> },
}

/// The text the selector uses for a window handle: `0x` and upper-case hex.
pub open spec fn hwnd_text(hwnd: usize) -> Seq<char> {
    seq!['0', 'x'] + crate::format::ascii_chars(crate::format::hex_ascii(hwnd as nat, true))
}

impl SelectorState {
    /// An inactive selector using `config`.
    pub fn new(config: PresetConfig) -> (s: SelectorState)
        ensures
            !s.active,
            s.last_capture_hwnd is None,
            s.last_capture_title is None,
            s.config == config,
    {
        SelectorState { active: false, last_capture_hwnd: None, last_capture_title: None, config }
    }

    /// The status reported by the API.
    pub fn status(&self) -> (st: SelectorStatus)
        ensures
            st.active == self.active,
            st.current_stream_id.deep_view() == if self.active {
                Some(main_stream_id())
            } else {
                None
            },
            st.current_hwnd.deep_view() == self.last_capture_hwnd.deep_view(),
            st.current_title.deep_view() == self.last_capture_title.deep_view(),
    {
        SelectorStatus {
            active: self.active,
            current_stream_id: if self.active {
                Some("main".to_owned())
            } else {
                None
            },
            current_hwnd: match &self.last_capture_hwnd {
                Some(h) => Some(h.clone()),
                None => None,
            },
            current_title: match &self.last_capture_title {
                Some(t) => Some(t.clone()),
                None => None,
            },
        }
    }

    /// Activates the selector and publishes the capture mode `auto`;
    /// returns `false` (changing nothing) when it was already active. The
    /// caller starts polling when this returns `true`.
    pub fn start(&mut self, strings: &mut StringStore) -> (started: bool)
        requires
            old(strings).wf(),
        ensures
            final(strings).wf(),
            started == !old(self).active,
            final(self).active,
            final(self).last_capture_hwnd == old(self).last_capture_hwnd,
            final(self).last_capture_title == old(self).last_capture_title,
            final(self).config == old(self).config,
            started ==> final(strings)@ == (StringStoreView {
                computed: old(strings)@.computed.insert(key_capture_mode(), "auto"@),
                ..old(strings)@
            }),
            !started ==> final(strings)@ == old(strings)@,
    {
        if self.active {
            return false;
        }
        self.active = true;
        proof {
            reveal_strlit("$captureMode");
        }
        strings.set_computed("$captureMode", "auto".to_owned());
        true
    }

    /// Deactivates the selector, destroys the `main` stream and withdraws
    /// the computed strings it published. Returns `None` when it was not
    /// active (changing nothing), otherwise whether a `main` stream existed
    /// (whose process the caller kills). The caller stops polling.
    pub fn stop(&mut self, streams: &mut StreamRegistry, strings: &mut StringStore) -> (r: Option<
        bool,
    >)
        requires
            old(streams).wf(),
            old(strings).wf(),
        ensures
            final(streams).wf(),
            final(strings).wf(),
            !old(self).active ==> r is None && final(streams)@ == old(streams)@ && final(strings)@
                == old(strings)@ && final(self).last_capture_hwnd == old(self).last_capture_hwnd,
            old(self).active ==> {
                &&& r == Some(old(streams)@.streams.contains_key(main_stream_id()))
                &&& !final(self).active
                &&& final(self).last_capture_hwnd is None
                &&& final(self).last_capture_title is None
                &&& final(streams)@ == (RegistryModel {
                    streams: old(streams)@.streams.remove(main_stream_id()),
                    ..old(streams)@
                })
                &&& final(strings)@ == (StringStoreView {
                    computed: old(strings)@.computed.remove(key_capture_title()).remove(
                        key_capture_mode(),
                    ).remove(key_live_mode()),
                    ..old(strings)@
                })
            },
            final(self).config == old(self).config,
    {
        if !self.active {
            return None;
        }
        self.active = false;
        self.last_capture_hwnd = None;
        self.last_capture_title = None;
        let existed = streams.destroy_stream("main");
        strings.clear_computed("$captureWindowTitle");
        strings.clear_computed("$captureMode");
        strings.clear_computed("$liveMode");
        Some(existed)
    }

    /// Replaces the preset configuration with `config`, freshly loaded by
    /// the caller; the activity and the captured window are kept.
    pub fn reload_config(&mut self, config: PresetConfig)
        ensures
            final(self).config == config,
            final(self).active == old(self).active,
            final(self).last_capture_hwnd == old(self).last_capture_hwnd,
            final(self).last_capture_title == old(self).last_capture_title,
    {
        self.config = config;
    }

    /// One poll: `foreground` is the foreground window, if any.
    ///
    /// The same window with a new title updates the published title. A new
    /// window the active preset captures replaces the `main` stream and
    /// publishes its title and live mode (or withdraws the live mode when the
    /// matching entry has none).
    pub fn poll_step(
        &mut self,
        foreground: Option<WindowInfo>,
        streams: &mut StreamRegistry,
        strings: &mut StringStore,
    ) -> (out: PollOutcome)
        requires
            old(self).config.wf(),
            old(streams).wf(),
            old(strings).wf(),
            !old(streams)@.streams.contains_key(main_stream_id()) || old(streams)@.streams[main_stream_id()].generation < u32::MAX,
        ensures
            final(self).config == old(self).config,
            final(self).active == old(self).active,
            final(streams).wf(),
            final(strings).wf(),
            foreground is None ==> out is Unchanged && final(self).last_capture_hwnd == old(
                self,
            ).last_capture_hwnd && final(self).last_capture_title == old(self).last_capture_title
                && final(streams)@ == old(streams)@ && final(strings)@ == old(strings)@,
            foreground is Some ==> poll_spec(
                old(self).last_capture_hwnd.deep_view(),
                old(self).last_capture_title.deep_view(),
                old(self).config@,
                foreground->0.hwnd,
                foreground->0.title@,
                foreground->0.executable_path@,
                old(streams)@,
                old(strings)@,
                final(self).last_capture_hwnd.deep_view(),
                final(self).last_capture_title.deep_view(),
                final(streams)@,
                final(strings)@,
                out,
            ),
    {
        let w = match foreground {
            Some(w) => w,
            None => return PollOutcome::Unchanged,
        };
        let hwnd_str = format_hwnd(w.hwnd);
        let same = match &self.last_capture_hwnd {
            Some(h) => *h == hwnd_str,
            None => false,
        };
        if same {
            let title_same = match &self.last_capture_title {
                Some(t) => *t == w.title,
                None => false,
            };
            if !title_same {
                self.last_capture_title = Some(w.title.clone());
                proof {
                    reveal_strlit("$captureWindowTitle");
                }
                strings.set_computed("$captureWindowTitle", w.title);
                return PollOutcome::TitleUpdated;
            }
            return PollOutcome::Unchanged;
        }
        let patterns = match self.config.active_patterns() {
            Some(p) => p,
            None => return PollOutcome::Unchanged,
        };
        assert(patterns.deep_view() =~= patterns@.map_values(|s: String| s@));
        let decision = should_capture(patterns.as_slice(), w.executable_path.as_str(), w.title.as_str());
        let mode = match decision {
            Some(m) => m,
            None => return PollOutcome::Unchanged,
        };
        let (replaced, args) = streams.replace_stream("main", hwnd_str.as_str(), DEFAULT_WIDTH, DEFAULT_HEIGHT);
        self.last_capture_hwnd = Some(hwnd_str);
        self.last_capture_title = Some(w.title.clone());
        proof {
            reveal_strlit("$captureWindowTitle");
            reveal_strlit("$liveMode");
        }
        strings.set_computed("$captureWindowTitle", w.title);
        match mode {
            Some(m) => strings.set_computed("$liveMode", m),
            None => strings.clear_computed("$liveMode"),
        }
        PollOutcome::Switched { replaced, args }
    }
}

/// What one poll with a foreground window does.
///
/// `hwnd0`/`title0` are the captured window's handle text and title before,
/// `hwnd1`/`title1` after; `reg0`/`str0` and `reg1`/`str1` the registry and
/// string store before and after.
pub open spec fn poll_spec(
    hwnd0: Option<Seq<char>>,
    title0: Option<Seq<char>>,
    config: PresetConfigView,
    hwnd: usize,
    title: Seq<char>,
    exe: Seq<char>,
    reg0: RegistryModel,
    str0: StringStoreView,
    hwnd1: Option<Seq<char>>,
    title1: Option<Seq<char>>,
    reg1: RegistryModel,
    str1: StringStoreView,
    out: PollOutcome,
) -> bool {
    let h = hwnd_text(hwnd);
    if hwnd0 == Some(h) {
        // the captured window: only its title may have changed
        &&& hwnd1 == hwnd0
        &&& reg1 == reg0
        &&& if title0 == Some(title) {
            out is Unchanged && title1 == title0 && str1 == str0
        } else {
            &&& out is TitleUpdated
            &&& title1 == Some(title)
            &&& str1 == (StringStoreView {
                computed: str0.computed.insert(key_capture_title(), title),
                ..str0
            })
        }
    } else {
        let decision = if config.presets.contains_key(config.preset) {
            capture_decision(config.presets[config.preset], exe, title)
        } else {
            None
        };
        match decision {
            None => out is Unchanged && hwnd1 == hwnd0 && title1 == title0 && reg1 == reg0 && str1
                == str0,
            Some(mode) => {
                let existed = reg0.streams.contains_key(main_stream_id());
                &&& hwnd1 == Some(h)
                &&& title1 == Some(title)
                &&& reg1 == (RegistryModel {
                    streams: reg0.streams.insert(
                        main_stream_id(),
                        if existed {
                            replaced_stream(reg0.streams[main_stream_id()], h)
                        } else {
                            new_stream(main_stream_id(), h)
                        },
                    ),
                    ..reg0
                })
                &&& str1 == (StringStoreView {
                    computed: match mode {
                        Some(m) => str0.computed.insert(key_capture_title(), title).insert(
                            key_live_mode(),
                            m,
                        ),
                        None => str0.computed.insert(key_capture_title(), title).remove(
                            key_live_mode(),
                        ),
                    },
                    ..str0
                })
                &&& match out {
                    PollOutcome::Switched { replaced, args } => replaced == existed
                        && args.deep_view() == resample_args(
                        reg0.exe_path,
                        h,
                        DEFAULT_WIDTH,
                        DEFAULT_HEIGHT,
                    ),
                    _ => false,
                }
            },
        }
    }
}

/// After a poll that switches to a new window, the live mode published is
/// the mode of the first inclusion of the active preset that matches the
/// window: listed under `$liveMode` with that value when the entry has a
/// mode, and gone from the computed strings when it has none, whatever was
/// published before. The window's title is published too, and the user
/// strings are untouched.
pub proof fn lemma_switch_publishes_live_mode(
    hwnd0: Option<Seq<char>>,
    title0: Option<Seq<char>>,
    config: PresetConfigView,
    hwnd: usize,
    title: Seq<char>,
    exe: Seq<char>,
    reg0: RegistryModel,
    str0: StringStoreView,
    hwnd1: Option<Seq<char>>,
    title1: Option<Seq<char>>,
    reg1: RegistryModel,
    str1: StringStoreView,
    out: PollOutcome,
)
    requires
        poll_spec(
            hwnd0,
            title0,
            config,
            hwnd,
            title,
            exe,
            reg0,
            str0,
            hwnd1,
            title1,
            reg1,
            str1,
            out,
        ),
        out is Switched,
    ensures
        config.presets.contains_key(config.preset),
        capture_decision(config.presets[config.preset], exe, title) is Some,
        match capture_decision(config.presets[config.preset], exe, title)->0 {
            Some(m) => str1.computed.contains_key(key_live_mode()) && str1.computed[key_live_mode()]
                == m && str1.user.union_prefer_right(str1.computed)[key_live_mode()] == m,
            None => !str1.computed.contains_key(key_live_mode()),
        },
        str1.computed.contains_key(key_capture_title()),
        str1.computed[key_capture_title()] == title,
        str1.user == str0.user,
        hwnd1 == Some(hwnd_text(hwnd)),
{
    reveal_strlit("$liveMode");
    reveal_strlit("$captureWindowTitle");
    assert(key_live_mode().len() == 9);
    assert(key_capture_title().len() == 19);
    assert(key_live_mode() != key_capture_title());
}

} // verus!
