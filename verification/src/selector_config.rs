//! Selector presets: pattern parsing and window matching.
//!
//! A preset is a flat list of pattern entries. Entries select windows by
//! default; an `@exclude` prefix marks an exclusion. A selecting entry may
//! carry a `@mode` prefix (e.g. `@code devenv.exe`), which is published as
//! the live mode when the selector switches to a window it matched.
//!
//! Full pattern format: `[@mode ] <exePath>[@<windowTitle>]`.

use vstd::prelude::*;

use crate::strmap::StrMap;
use crate::text::{
    chars_equal, chars_of, contains_chars, contains_sub, find_char, lowercase, position_of,
    replace_char, replace_chars, string_from_chars, sub_chars, to_lowercase, trim, trim_chars,
};

verus! {

// ── Pattern parsing ─────────────────────────────────────────────────────────

/// A parsed pattern: optional mode tag, executable-path part and optional
/// window-title filter.
#[derive(Debug)]
pub struct ParsedPattern {
    /// The `@mode` tag (e.g. `code`, `game`, `exclude`), if any.
    pub mode: Option<String>,
    pub exe_path: String,
    /// The window-title filter, present when the body has an `@` separator.
    pub title: Option<String>,
}

/// A parsed pattern, as character sequences.
pub struct PatternView {
    pub mode: Option<Seq<char>>,
    pub exe_path: Seq<char>,
    pub title: Option<Seq<char>>,
}

impl View for ParsedPattern {
    type V = PatternView;

    open spec fn view(&self) -> PatternView {
        PatternView {
            mode: self.mode.deep_view(),
            exe_path: self.exe_path@,
            title: self.title.deep_view(),
        }
    }
}

/// Splits off a leading `@mode ` prefix: an `@` at the start, then the mode,
/// then the first space, with at least one character of mode (an `@` at the
/// start without such a space begins a title filter instead).
pub open spec fn split_mode(p: Seq<char>) -> (Option<Seq<char>>, Seq<char>) {
    if p.len() > 0 && p[0] == '@' {
        match find_char(p, ' ') {
            Some(si) => if si > 1 {
                (Some(p.subrange(1, si)), p.subrange(si + 1, p.len() as int))
            } else {
                (None, p)
            },
            None => (None, p),
        }
    } else {
        (None, p)
    }
}

/// The parse of a pattern: the mode prefix, then the body split at its first
/// `@` into executable path and title filter.
pub open spec fn pattern_of(p: Seq<char>) -> PatternView {
    let (mode, body) = split_mode(p);
    match find_char(body, '@') {
        Some(k) => PatternView {
            mode,
            exe_path: body.subrange(0, k),
            title: Some(body.subrange(k + 1, body.len() as int)),
        },
        None => PatternView { mode, exe_path: body, title: None },
    }
}

/// Parses a pattern with an optional `@mode ` prefix and a
/// `<exePath>[@<windowTitle>]` body.
pub fn parse_pattern(pattern: &str) -> (p: ParsedPattern)
    ensures
        p@ == pattern_of(pattern@),
{
    let cs = chars_of(pattern);
    let mut mode: Option<String> = None;
    let mut body_start: usize = 0;
    if cs.len() > 0 && cs[0] == '@' {
        match position_of(cs.as_slice(), ' ') {
            Some(si) => {
                if si > 1 {
                    mode = Some(string_from_chars(sub_chars(cs.as_slice(), 1, si).as_slice()));
                    body_start = si + 1;
                }
            },
            None => {},
        }
    }
    let body = sub_chars(cs.as_slice(), body_start, cs.len());
    assert(body@ == split_mode(pattern@).1) by {
        if body_start == 0 {
            assert(cs@.subrange(0, cs@.len() as int) == cs@);
        }
    }
    match position_of(body.as_slice(), '@') {
        Some(k) => {
            let exe = string_from_chars(sub_chars(body.as_slice(), 0, k).as_slice());
            let title = string_from_chars(sub_chars(body.as_slice(), k + 1, body.len()).as_slice());
            ParsedPattern { mode, exe_path: exe, title: Some(title) }
        },
        None => ParsedPattern { mode, exe_path: string_from_chars(body.as_slice()), title: None },
    }
}

// ── Matching ────────────────────────────────────────────────────────────────

/// `s` with every `\` turned into `/`, so both separators match each other.
pub open spec fn normalize_separators(s: Seq<char>) -> Seq<char> {
    replace_char(s, '\\', '/')
}

/// The executable-path part matches: it is empty, or it occurs in the path
/// once separators are normalized (compared case-insensitively when asked).
pub open spec fn exe_matches(needle: Seq<char>, path: Seq<char>, case_insensitive: bool) -> bool {
    needle.len() == 0 || if case_insensitive {
        contains_sub(
            lowercase(normalize_separators(path)),
            lowercase(normalize_separators(needle)),
        )
    } else {
        contains_sub(normalize_separators(path), normalize_separators(needle))
    }
}

/// The title part matches: there is none, it is empty, or it occurs in the
/// window title, compared case-insensitively.
pub open spec fn title_matches(filter: Option<Seq<char>>, title: Seq<char>) -> bool {
    match filter {
        Some(t) => t.len() == 0 || contains_sub(lowercase(title), lowercase(t)),
        None => true,
    }
}

/// A window matches a pattern when both parts match.
pub open spec fn pattern_matches(
    p: PatternView,
    path: Seq<char>,
    title: Seq<char>,
    case_insensitive: bool,
) -> bool {
    exe_matches(p.exe_path, path, case_insensitive) && title_matches(p.title, title)
}

/// Lower-cases a character sequence (see `lowercase`).
fn lower_chars(s: &[char]) -> (r: Vec<char>)
    ensures
        r@ == lowercase(s@),
{
    chars_of(to_lowercase(string_from_chars(s).as_str()).as_str())
}

/// Tests whether a window matches a parsed pattern.
///
/// The executable-path part is a substring match with `/` and `\`
/// interchangeable, case-insensitive when `case_insensitive` is set; the
/// title part is always a case-insensitive substring match; both must match.
pub fn matches_parsed(
    parsed: &ParsedPattern,
    executable_path: &str,
    window_title: &str,
    case_insensitive: bool,
) -> (b: bool)
    ensures
        b == pattern_matches(parsed@, executable_path@, window_title@, case_insensitive),
{
    let needle_raw = chars_of(parsed.exe_path.as_str());
    if needle_raw.len() > 0 {
        let hay = replace_chars(chars_of(executable_path).as_slice(), '\\', '/');
        let needle = replace_chars(needle_raw.as_slice(), '\\', '/');
        let found = if case_insensitive {
            let lh = lower_chars(hay.as_slice());
            let ln = lower_chars(needle.as_slice());
            contains_chars(lh.as_slice(), ln.as_slice())
        } else {
            contains_chars(hay.as_slice(), needle.as_slice())
        };
        if !found {
            return false;
        }
    }
    match &parsed.title {
        Some(t) => {
            let tc = chars_of(t.as_str());
            if tc.len() > 0 {
                let lw = lower_chars(chars_of(window_title).as_slice());
                let lt = lower_chars(tc.as_slice());
                if !contains_chars(lw.as_slice(), lt.as_slice()) {
                    return false;
                }
            }
        },
        None => {},
    }
    true
}

/// The mode tag that marks an exclusion.
pub open spec fn exclude_tag() -> Seq<char> {
    seq!['e', 'x', 'c', 'l', 'u', 'd', 'e']
}

pub open spec fn is_exclude(p: PatternView) -> bool {
    p.mode == Some(exclude_tag())
}

/// Some exclusion entry matches the window (exclusions compare the
/// executable path case-insensitively).
pub open spec fn excluded_by(pats: Seq<Seq<char>>, path: Seq<char>, title: Seq<char>) -> bool {
    exists|i: int|
        0 <= i < pats.len() && is_exclude(#[trigger] pattern_of(pats[i])) && pattern_matches(
            pattern_of(pats[i]),
            path,
            title,
            true,
        )
}

/// Entry `i` is an inclusion entry that matches the window.
pub open spec fn includes_at(pats: Seq<Seq<char>>, path: Seq<char>, title: Seq<char>, i: int) -> bool {
    !is_exclude(pattern_of(pats[i])) && pattern_matches(pattern_of(pats[i]), path, title, false)
}

/// The first inclusion entry at or after `i` that matches the window.
pub open spec fn first_include_from(
    pats: Seq<Seq<char>>,
    path: Seq<char>,
    title: Seq<char>,
    i: int,
) -> Option<int>
    decreases pats.len() - i,
{
    if i < 0 || i >= pats.len() {
        None
    } else if includes_at(pats, path, title, i) {
        Some(i)
    } else {
        first_include_from(pats, path, title, i + 1)
    }
}

/// The capture decision for a window: `None` when an exclusion matches or
/// no inclusion does, otherwise the mode tag of the first matching
/// inclusion.
pub open spec fn capture_decision(pats: Seq<Seq<char>>, path: Seq<char>, title: Seq<char>) -> Option<
    Option<Seq<char>>,
> {
    if excluded_by(pats, path, title) {
        None
    } else {
        match first_include_from(pats, path, title, 0) {
            Some(k) => Some(pattern_of(pats[k]).mode),
            None => None,
        }
    }
}

fn is_exclude_mode(mode: &Option<String>) -> (b: bool)
    ensures
        b == (mode.deep_view() == Some(exclude_tag())),
{
    match mode {
        Some(m) => {
            let tag: [char; 7] = ['e', 'x', 'c', 'l', 'u', 'd', 'e'];
            assert(tag@ == exclude_tag());
            chars_equal(chars_of(m.as_str()).as_slice(), tag.as_slice())
        },
        None => false,
    }
}

/// Decides whether a window is captured under a preset's patterns.
///
/// Returns `None` when the window is not captured; otherwise `Some` of the
/// mode tag of the first matching inclusion (itself `None` when that entry
/// has no `@mode` prefix). Any matching exclusion vetoes the capture.
pub fn should_capture(patterns: &[String], executable_path: &str, title: &str) -> (r: Option<
    Option<String>,
>)
    ensures
        r.deep_view() == capture_decision(
            patterns@.map_values(|s: String| s@),
            executable_path@,
            title@,
        ),
{
    let ghost pats = patterns@.map_values(|s: String| s@);
    let mut matched_mode: Option<String> = None;
    let mut included = false;
    let ghost mut k0: int = 0;
    let mut i: usize = 0;
    while i < patterns.len()
        invariant
            pats == patterns@.map_values(|s: String| s@),
            i <= patterns@.len(),
            forall|j: int|
                0 <= j < i ==> !(is_exclude(#[trigger] pattern_of(pats[j])) && pattern_matches(
                    pattern_of(pats[j]),
                    executable_path@,
                    title@,
                    true,
                )),
            included ==> first_include_from(pats, executable_path@, title@, 0) == Some(k0) && 0
                <= k0 < pats.len() && matched_mode.deep_view() == pattern_of(pats[k0]).mode,
            !included ==> first_include_from(pats, executable_path@, title@, 0)
                == first_include_from(pats, executable_path@, title@, i as int),
        decreases patterns@.len() - i,
    {
        let parsed = parse_pattern(patterns[i].as_str());
        assert(parsed@ == pattern_of(pats[i as int]));
        if is_exclude_mode(&parsed.mode) {
            if matches_parsed(&parsed, executable_path, title, true) {
                assert(excluded_by(pats, executable_path@, title@));
                return None;
            }
        } else if !included && matches_parsed(&parsed, executable_path, title, false) {
            included = true;
            proof {
                k0 = i as int;
            }
            matched_mode = parsed.mode;
        }
        i = i + 1;
    }
    assert(!excluded_by(pats, executable_path@, title@));
    if included {
        Some(matched_mode)
    } else {
        None
    }
}

// ── Presets ─────────────────────────────────────────────────────────────────

/// The name of the preset used when none is configured.
pub open spec fn default_preset_name() -> Seq<char> {
    seq!['d', 'e', 'f', 'a', 'u', 'l', 't']
}

/// The built-in preset entries.
pub open spec fn default_preset_entries() -> Seq<Seq<char>> {
    seq![
        "@code devenv.exe"@,
        "@code C:/Program Files/Microsoft Visual Studio Code/Code.exe"@,
        "@code C:/Program Files/JetBrains/"@,
        "@game D:/7-Games/"@,
        "@game D:/7-Games.Steam/steamapps/common/"@,
        "@game E:/Nekomaru-Games/"@,
        "@game E:/SteamLibrary/steamapps/common/"@,
        "@exclude gogh.exe"@,
        "@exclude vtube studio.exe"@,
    ]
}

/// The built-in presets: a single `default` preset.
pub open spec fn default_presets_map() -> Map<Seq<char>, Seq<Seq<char>>> {
    map![default_preset_name() => default_preset_entries()]
}

/// The built-in presets.
pub fn default_presets() -> (m: StrMap<Vec<String>>)
    ensures
        m.wf(),
        m.view() == default_presets_map(),
{
    let mut v: Vec<String> = Vec::new();
    v.push("@code devenv.exe".to_owned());
    v.push("@code C:/Program Files/Microsoft Visual Studio Code/Code.exe".to_owned());
    v.push("@code C:/Program Files/JetBrains/".to_owned());
    v.push("@game D:/7-Games/".to_owned());
    v.push("@game D:/7-Games.Steam/steamapps/common/".to_owned());
    v.push("@game E:/Nekomaru-Games/".to_owned());
    v.push("@game E:/SteamLibrary/steamapps/common/".to_owned());
    v.push("@exclude gogh.exe".to_owned());
    v.push("@exclude vtube studio.exe".to_owned());
    assert(v.deep_view() == default_preset_entries());
    let mut m: StrMap<Vec<String>> = StrMap::new();
    let name: [char; 7] = ['d', 'e', 'f', 'a', 'u', 'l', 't'];
    assert(name@ == default_preset_name());
    m.insert(string_from_chars(name.as_slice()), v);
    assert(m.view() =~= default_presets_map());
    m
}

/// The active preset name and the entries of every preset.
pub struct PresetConfig {
    preset: String,
    presets: StrMap<Vec<String>>,
}

/// A preset config, as character sequences.
pub struct PresetConfigView {
    pub preset: Seq<char>,
    pub presets: Map<Seq<char>, Seq<Seq<char>>>,
}

impl View for PresetConfig {
    type V = PresetConfigView;

    closed spec fn view(&self) -> PresetConfigView {
        PresetConfigView { preset: self.preset@, presets: self.presets.view() }
    }
}

/// Why switching presets was refused.
#[derive(Debug)]
pub enum PresetError {
    /// The requested name is empty once trimmed.
    NameRequired,
    /// No preset has the requested (trimmed) name.
    NotFound(String),
}

/// The value of one preset as read from the config file.
#[derive(Debug)]
pub enum RawPreset {
    /// Current format: a flat array; items that are not strings are `None`.
    List(Vec<Option<String>>),
    /// Legacy format with an inclusion list and an exclusion list; a field that is
    /// missing or not an array is `None`.
    Legacy { included: Option<Vec<Option<String>>>, excluded: Option<Vec<Option<String>>> },
    /// Anything else; such a preset is dropped.
    Other,
}

/// The config file's top level: the `preset` field when it is a string, and
/// the `presets` object's members when it is an object.
#[derive(Debug)]
pub struct RawPresetConfig {
    pub preset: Option<String>,
    pub presets: Option<Vec<(String, RawPreset)>>,
}

/// The strings among `items`, in order.
pub open spec fn present_strings(items: Seq<Option<Seq<char>>>) -> Seq<Seq<char>>
    decreases items.len(),
{
    if items.len() == 0 {
        Seq::empty()
    } else {
        let r = present_strings(items.drop_last());
        match items.last() {
            Some(s) => r.push(s),
            None => r,
        }
    }
}

/// The prefix that turns a legacy exclusion into an entry.
pub open spec fn exclude_prefix() -> Seq<char> {
    seq!['@', 'e', 'x', 'c', 'l', 'u', 'd', 'e', ' ']
}

pub open spec fn optional_items(o: Option<Vec<Option<String>>>) -> Seq<Option<Seq<char>>> {
    match o {
        Some(v) => v.deep_view(),
        None => Seq::empty(),
    }
}

/// The entries a raw preset stands for: a flat list keeps its strings; a
/// legacy preset becomes its inclusions followed by its exclusions, each
/// prefixed with `@exclude `; anything else is dropped (`None`).
pub open spec fn raw_preset_entries(r: RawPreset) -> Option<Seq<Seq<char>>> {
    match r {
        RawPreset::List(items) => Some(present_strings(items.deep_view())),
        RawPreset::Legacy { included, excluded } => Some(
            present_strings(optional_items(included)) + present_strings(
                optional_items(excluded),
            ).map_values(|e: Seq<char>| exclude_prefix() + e),
        ),
        RawPreset::Other => None,
    }
}

/// The presets a list of raw members stands for; a later member wins over
/// an earlier one of the same name.
pub open spec fn presets_from_raw(entries: Seq<(String, RawPreset)>) -> Map<Seq<char>, Seq<Seq<char>>>
    decreases entries.len(),
{
    if entries.len() == 0 {
        Map::empty()
    } else {
        let m = presets_from_raw(entries.drop_last());
        match raw_preset_entries(entries.last().1) {
            Some(v) => m.insert(entries.last().0@, v),
            None => m,
        }
    }
}

/// The config a raw file stands for: the preset name defaults to
/// `default`, and with no usable preset the built-in presets apply.
pub open spec fn config_from_raw(raw: RawPresetConfig) -> PresetConfigView {
    let preset = match raw.preset {
        Some(p) => p@,
        None => default_preset_name(),
    };
    let found = match raw.presets {
        Some(es) => presets_from_raw(es@),
        None => Map::empty(),
    };
    PresetConfigView {
        preset,
        presets: if found == Map::<Seq<char>, Seq<Seq<char>>>::empty() {
            default_presets_map()
        } else {
            found
        },
    }
}

/// Clones the strings among `items`.
fn collect_strings(items: &Vec<Option<String>>) -> (r: Vec<String>)
    ensures
        r.deep_view() == present_strings(items.deep_view()),
{
    let mut r: Vec<String> = Vec::new();
    let mut i: usize = 0;
    while i < items.len()
        invariant
            i <= items@.len(),
            r.deep_view() == present_strings(items.deep_view().take(i as int)),
        decreases items@.len() - i,
    {
        assert(items.deep_view().take(i + 1).drop_last() == items.deep_view().take(i as int));
        match &items[i] {
            Some(s) => {
                r.push(s.clone());
                assert(r.deep_view() == present_strings(items.deep_view().take(i as int)).push(s@));
            },
            None => {},
        }
        i = i + 1;
    }
    assert(items.deep_view().take(items@.len() as int) == items.deep_view());
    r
}

/// The entries of one raw preset (see `raw_preset_entries`).
pub fn migrate_raw_preset(r: &RawPreset) -> (v: Option<Vec<String>>)
    ensures
        v.deep_view() == raw_preset_entries(*r),
{
    match r {
        RawPreset::List(items) => Some(collect_strings(items)),
        RawPreset::Legacy { included, excluded } => {
            let mut entries = match included {
                Some(v) => collect_strings(v),
                None => Vec::new(),
            };
            let excl = match excluded {
                Some(v) => collect_strings(v),
                None => Vec::new(),
            };
            let ghost base = entries.deep_view();
            let ghost pre = exclude_prefix();
            let prefix: [char; 9] = ['@', 'e', 'x', 'c', 'l', 'u', 'd', 'e', ' '];
            assert(prefix@ == pre);
            let mut i: usize = 0;
            while i < excl.len()
                invariant
                    i <= excl@.len(),
                    pre == exclude_prefix(),
                    prefix@ == pre,
                    entries.deep_view() == base + excl.deep_view().take(i as int).map_values(
                        |e: Seq<char>| pre + e,
                    ),
                decreases excl@.len() - i,
            {
                let mut cs: Vec<char> = Vec::new();
                let mut k: usize = 0;
                while k < 9
                    invariant
                        k <= 9,
                        prefix@.len() == 9,
                        cs@ == prefix@.take(k as int),
                    decreases 9 - k,
                {
                    cs.push(prefix[k]);
                    assert(prefix@.take(k + 1) == prefix@.take(k as int).push(prefix@[k as int]));
                    k = k + 1;
                }
                assert(prefix@.take(9) == prefix@);
                let tail = chars_of(excl[i].as_str());
                let mut j: usize = 0;
                while j < tail.len()
                    invariant
                        j <= tail@.len(),
                        cs@ == prefix@ + tail@.take(j as int),
                    decreases tail@.len() - j,
                {
                    cs.push(tail[j]);
                    assert(tail@.take(j + 1) == tail@.take(j as int).push(tail@[j as int]));
                    j = j + 1;
                }
                assert(tail@.take(tail@.len() as int) == tail@);
                let ghost before = entries.deep_view();
                entries.push(string_from_chars(cs.as_slice()));
                proof {
                    let f = |e: Seq<char>| pre + e;
                    let x = excl.deep_view();
                    assert(x.take(i + 1) == x.take(i as int).push(x[i as int]));
                    assert(x.take(i + 1).map_values(f) == x.take(i as int).map_values(f).push(
                        f(x[i as int]),
                    ));
                    assert(entries.deep_view() == before.push(cs@));
                    assert(cs@ == f(x[i as int]));
                    assert(base + x.take(i + 1).map_values(f) == (base + x.take(i as int).map_values(
                        f,
                    )).push(f(x[i as int])));
                }
                i = i + 1;
            }
            assert(excl.deep_view().take(excl@.len() as int) == excl.deep_view());
            Some(entries)
        },
        RawPreset::Other => None,
    }
}

impl PresetConfig {
    pub closed spec fn wf(&self) -> bool {
        self.presets.wf()
    }

    /// The config used when no config file exists: the `default` preset
    /// active among the built-in presets.
    pub fn defaults() -> (c: PresetConfig)
        ensures
            c.wf(),
            c@ == (PresetConfigView { preset: default_preset_name(), presets: default_presets_map() }),
    {
        let name: [char; 7] = ['d', 'e', 'f', 'a', 'u', 'l', 't'];
        assert(name@ == default_preset_name());
        PresetConfig { preset: string_from_chars(name.as_slice()), presets: default_presets() }
    }

    /// A config made of an active preset name and a set of presets.
    pub fn from_parts(preset: String, presets: StrMap<Vec<String>>) -> (c: PresetConfig)
        requires
            presets.wf(),
        ensures
            c.wf(),
            c@ == (PresetConfigView { preset: preset@, presets: presets.view() }),
    {
        PresetConfig { preset, presets }
    }

    /// Reads a config from the members of its file, migrating legacy
    /// presets to the flat format and falling back to the built-in presets
    /// when no preset is usable.
    pub fn from_raw(raw: RawPresetConfig) -> (c: PresetConfig)
        ensures
            c.wf(),
            c@ == config_from_raw(raw),
    {
        let ghost raw0 = raw;
        let preset = match raw.preset {
            Some(p) => p,
            None => {
                let name: [char; 7] = ['d', 'e', 'f', 'a', 'u', 'l', 't'];
                assert(name@ == default_preset_name());
                string_from_chars(name.as_slice())
            },
        };
        let mut presets: StrMap<Vec<String>> = StrMap::new();
        match &raw.presets {
            Some(es) => {
                let mut i: usize = 0;
                while i < es.len()
                    invariant
                        i <= es@.len(),
                        presets.wf(),
                        presets.view() == presets_from_raw(es@.take(i as int)),
                    decreases es@.len() - i,
                {
                    assert(es@.take(i + 1).drop_last() == es@.take(i as int));
                    match migrate_raw_preset(&es[i].1) {
                        Some(v) => {
                            presets.insert(es[i].0.clone(), v);
                        },
                        None => {},
                    }
                    i = i + 1;
                }
                assert(es@.take(es@.len() as int) == es@);
            },
            None => {},
        }
        if presets.is_empty() {
            presets = default_presets();
        }
        PresetConfig { preset, presets }
    }

    /// The active preset's name.
    pub fn preset(&self) -> (p: &String)
        ensures
            p@ == self@.preset,
    {
        &self.preset
    }

    /// Every preset.
    pub fn presets(&self) -> (m: &StrMap<Vec<String>>)
        requires
            self.wf(),
        ensures
            m.wf(),
            m.view() == self@.presets,
    {
        &self.presets
    }

    /// The entries of the active preset, if a preset of that name exists.
    pub fn active_patterns(&self) -> (r: Option<&Vec<String>>)
        requires
            self.wf(),
        ensures
            match r {
                Some(v) => self@.presets.contains_key(self@.preset) && self@.presets[self@.preset]
                    == v.deep_view(),
                None => !self@.presets.contains_key(self@.preset),
            },
    {
        self.presets.get(self.preset.as_str())
    }

    /// Makes the preset named by `name` (surrounding white space ignored)
    /// the active one.
    pub fn select_preset(&mut self, name: &str) -> (r: Result<(), PresetError>)
        requires
            old(self).wf(),
        ensures
            final(self).wf(),
            trim(name@).len() == 0 ==> r is Err && r->Err_0 is NameRequired && final(self)@ == old(
                self,
            )@,
            trim(name@).len() > 0 && !old(self)@.presets.contains_key(trim(name@)) ==> (match r {
                Err(PresetError::NotFound(n)) => n@ == trim(name@),
                _ => false,
            }) && final(self)@ == old(self)@,
            trim(name@).len() > 0 && old(self)@.presets.contains_key(trim(name@)) ==> r is Ok
                && final(self)@ == (PresetConfigView { preset: trim(name@), ..old(self)@ }),
    {
        let trimmed = trim_chars(chars_of(name).as_slice());
        if trimmed.len() == 0 {
            return Err(PresetError::NameRequired);
        }
        let n = string_from_chars(trimmed.as_slice());
        if !self.presets.contains_key(n.as_str()) {
            return Err(PresetError::NotFound(n));
        }
        self.preset = n;
        Ok(())
    }
}

// ── Laws ────────────────────────────────────────────────────────────────────

/// Normalizing separators twice changes nothing more, and keeps the length.
proof fn lemma_normalize_idempotent(s: Seq<char>)
    ensures
        normalize_separators(normalize_separators(s)) == normalize_separators(s),
        normalize_separators(s).len() == s.len(),
{
    assert(normalize_separators(normalize_separators(s)) =~= normalize_separators(s));
}

/// `\` and `/` are interchangeable in executable-path matching, whether
/// letter case counts or not: writing either separator in the pattern or in
/// the path gives the same answer.
pub proof fn lemma_separators_interchangeable(needle: Seq<char>, path: Seq<char>, case_insensitive: bool)
    ensures
        exe_matches(needle, path, case_insensitive) == exe_matches(
            normalize_separators(needle),
            normalize_separators(path),
            case_insensitive,
        ),
        exe_matches(needle, path, case_insensitive) == exe_matches(
            needle,
            normalize_separators(path),
            case_insensitive,
        ),
{
    lemma_normalize_idempotent(needle);
    lemma_normalize_idempotent(path);
}

proof fn lemma_first_include_separator_blind(
    pats: Seq<Seq<char>>,
    path: Seq<char>,
    title: Seq<char>,
    i: int,
)
    ensures
        first_include_from(pats, path, title, i) == first_include_from(
            pats,
            normalize_separators(path),
            title,
            i,
        ),
    decreases pats.len() - i,
{
    if 0 <= i < pats.len() {
        lemma_separators_interchangeable(pattern_of(pats[i]).exe_path, path, false);
        lemma_first_include_separator_blind(pats, path, title, i + 1);
    }
}

/// Whether a window is captured, and under which mode, does not depend on
/// which separator its executable path uses: a path written with `\` is
/// decided as the same path written with `/`, for exclusions (which ignore
/// letter case) as well as inclusions.
pub proof fn lemma_capture_separator_blind(pats: Seq<Seq<char>>, path: Seq<char>, title: Seq<char>)
    ensures
        capture_decision(pats, path, title) == capture_decision(pats, normalize_separators(path), title),
        excluded_by(pats, path, title) == excluded_by(pats, normalize_separators(path), title),
{
    let np = normalize_separators(path);
    assert forall|i: int| 0 <= i < pats.len() implies pattern_matches(pattern_of(pats[i]), path, title, true)
        == pattern_matches(pattern_of(pats[i]), np, title, true) by {
        lemma_separators_interchangeable(pattern_of(pats[i]).exe_path, path, true);
    }
    if excluded_by(pats, path, title) {
        let i = choose|i: int|
            0 <= i < pats.len() && is_exclude(#[trigger] pattern_of(pats[i])) && pattern_matches(
                pattern_of(pats[i]),
                path,
                title,
                true,
            );
        assert(pattern_matches(pattern_of(pats[i]), np, title, true));
    }
    if excluded_by(pats, np, title) {
        let i = choose|i: int|
            0 <= i < pats.len() && is_exclude(#[trigger] pattern_of(pats[i])) && pattern_matches(
                pattern_of(pats[i]),
                np,
                title,
                true,
            );
        assert(pattern_matches(pattern_of(pats[i]), path, title, true));
    }
    lemma_first_include_separator_blind(pats, path, title, 0);
}

/// An exclusion that matches a window vetoes its capture, wherever it stands
/// in the preset and whatever inclusions also match.
pub proof fn lemma_exclusion_vetoes(pats: Seq<Seq<char>>, path: Seq<char>, title: Seq<char>, i: int)
    requires
        0 <= i < pats.len(),
        is_exclude(pattern_of(pats[i])),
        pattern_matches(pattern_of(pats[i]), path, title, true),
    ensures
        capture_decision(pats, path, title) is None,
{
    assert(excluded_by(pats, path, title));
}

/// With no matching exclusion, a window is captured exactly when some
/// inclusion matches it, under the mode of the first one that does.
pub proof fn lemma_first_inclusion_decides(
    pats: Seq<Seq<char>>,
    path: Seq<char>,
    title: Seq<char>,
    i: int,
)
    requires
        !excluded_by(pats, path, title),
        0 <= i < pats.len(),
        includes_at(pats, path, title, i),
        forall|j: int| 0 <= j < i ==> !includes_at(pats, path, title, j),
    ensures
        capture_decision(pats, path, title) == Some(pattern_of(pats[i]).mode),
{
    lemma_first_include_from(pats, path, title, 0, i);
}

proof fn lemma_first_include_from(pats: Seq<Seq<char>>, path: Seq<char>, title: Seq<char>, from: int, i: int)
    requires
        0 <= from <= i < pats.len(),
        includes_at(pats, path, title, i),
        forall|j: int| from <= j < i ==> !includes_at(pats, path, title, j),
    ensures
        first_include_from(pats, path, title, from) == Some(i),
    decreases i - from,
{
    if from < i {
        lemma_first_include_from(pats, path, title, from + 1, i);
    }
}

/// A legacy exclusion, once migrated to an `@exclude ` entry, parses as an
/// exclusion of the same path and title.
pub proof fn lemma_migrated_exclusion_excludes(e: Seq<char>)
    ensures
        is_exclude(pattern_of(exclude_prefix() + e)),
        split_mode(exclude_prefix() + e).1 == e,
{
    let s = exclude_prefix() + e;
    crate::text::lemma_find_char(s, ' ');
    assert(s[8] == ' ');
    assert forall|j: int| 0 <= j < 8 implies s[j] != ' ' by {}
    assert(find_char(s, ' ') == Some(8int));
    assert(s.subrange(1, 8) == exclude_tag());
    assert(s.subrange(9, s.len() as int) == e);
}

} // verus!
