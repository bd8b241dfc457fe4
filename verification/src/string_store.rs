//! Key-value string store with computed strings and two persistence layers.
//!
//! User strings persist in two layers, loaded in order (the later wins on
//! conflict): a single JSON file for short single-line values, then one
//! Markdown file per key for multiline content. Computed strings
//! (`$`-prefixed) are derived by the server, read-only and never persisted;
//! they are merged over the user strings when all entries are listed.
//!
//! The store decides; the caller performs the file operations it names.

use vstd::prelude::*;

use crate::strmap::{StrMap, pairs_map};
use crate::text::{chars_of, string_from_chars, sub_chars, trim_end, trimmed_end_len};

verus! {

/// Why a write or delete was refused.
#[derive(Debug)]
pub enum StringStoreError {
    /// The key is `$`-prefixed: computed strings are read-only.
    ComputedReadonly,
    /// The key is empty or holds a character other than ASCII letters,
    /// digits, `-` and `_`.
    InvalidKey,
}

/// Where a value that was set is persisted.
#[derive(Debug)]
pub enum StorageLayer {
    /// Multiline values: `<key>.md`, and the key leaves the JSON file.
    Markdown,
    /// Single-line values: the JSON file, and `<key>.md` is removed.
    Json,
}

/// A key character: an ASCII letter or digit, `-` or `_`.
pub open spec fn is_key_char(c: char) -> bool {
    ('a' <= c <= 'z') || ('A' <= c <= 'Z') || ('0' <= c <= '9') || c == '-' || c == '_'
}

/// A valid key is non-empty and made of key characters.
pub open spec fn is_valid_key(k: Seq<char>) -> bool {
    k.len() > 0 && forall|i: int| 0 <= i < k.len() ==> is_key_char(#[trigger] k[i])
}

/// A value is multiline when a newline remains once trailing white space is
/// removed.
pub open spec fn is_multiline(v: Seq<char>) -> bool {
    trim_end(v).contains('\n')
}

/// Whether a key names a computed string.
pub open spec fn is_computed_key(k: Seq<char>) -> bool {
    k.len() > 0 && k[0] == '$'
}

/// The key a Markdown file in the strings directory holds: its name
/// without the `.md` suffix, when that is a valid key.
pub open spec fn markdown_key_of(name: Seq<char>) -> Option<Seq<char>> {
    let n = name.len();
    if n >= 3 && name.subrange(n - 3, n as int) == seq!['.', 'm', 'd'] && is_valid_key(
        name.subrange(0, n - 3),
    ) {
        Some(name.subrange(0, n - 3))
    } else {
        None
    }
}

/// The user strings after loading: the JSON layer, then every Markdown file
/// whose name gives a valid key, each overriding what came before.
pub open spec fn layered(
    json: Seq<(Seq<char>, Seq<char>)>,
    markdown: Seq<(Seq<char>, Seq<char>)>,
) -> Map<Seq<char>, Seq<char>>
    decreases markdown.len(),
{
    if markdown.len() == 0 {
        pairs_map(json)
    } else {
        let m = layered(json, markdown.drop_last());
        match markdown_key_of(markdown.last().0) {
            Some(k) => m.insert(k, markdown.last().1),
            None => m,
        }
    }
}

/// Whether a key is valid (see `is_valid_key`).
pub fn is_valid_key_str(key: &str) -> (b: bool)
    ensures
        b == is_valid_key(key@),
{
    let cs = chars_of(key);
    if cs.len() == 0 {
        return false;
    }
    let mut i: usize = 0;
    while i < cs.len()
        invariant
            cs@ == key@,
            i <= cs@.len(),
            forall|j: int| 0 <= j < i ==> is_key_char(#[trigger] cs@[j]),
        decreases cs@.len() - i,
    {
        let c = cs[i];
        if !(('a' <= c && c <= 'z') || ('A' <= c && c <= 'Z') || ('0' <= c && c <= '9') || c == '-'
            || c == '_') {
            return false;
        }
        i = i + 1;
    }
    true
}

/// Whether a value is multiline (see `is_multiline`).
pub fn is_multiline_str(value: &str) -> (b: bool)
    ensures
        b == is_multiline(value@),
{
    let cs = chars_of(value);
    let n = trimmed_end_len(cs.as_slice());
    let mut i: usize = 0;
    while i < n
        invariant
            n <= cs@.len(),
            cs@.take(n as int) == trim_end(value@),
            i <= n,
            forall|j: int| 0 <= j < i ==> cs@[j] != '\n',
        decreases n - i,
    {
        if cs[i] == '\n' {
            assert(trim_end(value@)[i as int] == '\n');
            return true;
        }
        i = i + 1;
    }
    assert forall|j: int| 0 <= j < trim_end(value@).len() implies trim_end(value@)[j] != '\n' by {
        assert(trim_end(value@)[j] == cs@[j]);
    }
    false
}

/// The key held by a Markdown file of the given name, if any.
pub fn markdown_key(file_name: &str) -> (r: Option<String>)
    ensures
        r.deep_view() == markdown_key_of(file_name@),
{
    let cs = chars_of(file_name);
    let n = cs.len();
    if n >= 3 && cs[n - 3] == '.' && cs[n - 2] == 'm' && cs[n - 1] == 'd' {
        assert(cs@.subrange(n - 3, n as int) == seq!['.', 'm', 'd']);
        let stem = string_from_chars(sub_chars(cs.as_slice(), 0, n - 3).as_slice());
        if is_valid_key_str(stem.as_str()) {
            return Some(stem);
        }
        None
    } else {
        proof {
            if n >= 3 {
                let t = cs@.subrange(n - 3, n as int);
                assert(t[0] == cs@[n - 3] && t[1] == cs@[n - 2] && t[2] == cs@[n - 1]);
            }
        }
        None
    }
}

/// Every computed string sits under a `$`-prefixed key.
pub open spec fn computed_keys_prefixed(v: StringStoreView) -> bool {
    forall|k: Seq<char>| #[trigger] v.computed.contains_key(k) ==> is_computed_key(k)
}

/// User strings and computed strings.
pub struct StringStore {
    user: StrMap<String>,
    computed: StrMap<String>,
}

/// The user strings and the computed strings.
pub struct StringStoreView {
    pub user: Map<Seq<char>, Seq<char>>,
    pub computed: Map<Seq<char>, Seq<char>>,
}

impl View for StringStore {
    type V = StringStoreView;

    closed spec fn view(&self) -> StringStoreView {
        StringStoreView { user: self.user.view(), computed: self.computed.view() }
    }
}

impl StringStore {
    pub closed spec fn wf(&self) -> bool {
        &&& self.user.wf()
        &&& self.computed.wf()
        &&& computed_keys_prefixed(self@)
    }

    /// Every well-formed store holds computed strings under `$` keys only.
    pub proof fn lemma_wf(&self)
        requires
            self.wf(),
        ensures
            computed_keys_prefixed(self@),
    {
    }

    /// A store with no strings; the caller loads the persisted layers with
    /// `reload`.
    pub fn new() -> (s: StringStore)
        ensures
            s.wf(),
            s@.user == Map::<Seq<char>, Seq<char>>::empty(),
            s@.computed == Map::<Seq<char>, Seq<char>>::empty(),
    {
        StringStore { user: StrMap::new(), computed: StrMap::new() }
    }

    /// All entries: the user strings, overridden by the computed strings.
    pub fn get_all(&self) -> (all: StrMap<String>)
        requires
            self.wf(),
        ensures
            all.wf(),
            all.view() == self@.user.union_prefer_right(self@.computed),
    {
        let mut all: StrMap<String> = StrMap::new();
        let user = self.user.entries();
        let mut i: usize = 0;
        while i < user.len()
            invariant
                all.wf(),
                i <= user@.len(),
                all.view() == pairs_map(
                    user@.map_values(|e: (String, String)| (e.0@, e.1.deep_view())).take(i as int),
                ),
            decreases user@.len() - i,
        {
            let ghost ps = user@.map_values(|e: (String, String)| (e.0@, e.1.deep_view()));
            assert(ps.take(i + 1).drop_last() == ps.take(i as int));
            all.insert(user[i].0.clone(), user[i].1.clone());
            i = i + 1;
        }
        let ghost ps = user@.map_values(|e: (String, String)| (e.0@, e.1.deep_view()));
        assert(ps.take(user@.len() as int) == ps);
        let computed = self.computed.entries();
        let mut j: usize = 0;
        while j < computed.len()
            invariant
                all.wf(),
                j <= computed@.len(),
                all.view() == self@.user.union_prefer_right(
                    pairs_map(
                        computed@.map_values(|e: (String, String)| (e.0@, e.1.deep_view())).take(
                            j as int,
                        ),
                    ),
                ),
            decreases computed@.len() - j,
        {
            let ghost cs = computed@.map_values(|e: (String, String)| (e.0@, e.1.deep_view()));
            let ghost before = pairs_map(cs.take(j as int));
            assert(cs.take(j + 1).drop_last() == cs.take(j as int));
            all.insert(computed[j].0.clone(), computed[j].1.clone());
            assert(all.view() =~= self@.user.union_prefer_right(before.insert(cs[j as int].0, cs[j as int].1)));
            j = j + 1;
        }
        let ghost cs = computed@.map_values(|e: (String, String)| (e.0@, e.1.deep_view()));
        assert(cs.take(computed@.len() as int) == cs);
        all
    }

    /// Sets a user string, and names the layer it is persisted in.
    pub fn set(&mut self, key: &str, value: &str) -> (r: Result<StorageLayer, StringStoreError>)
        requires
            old(self).wf(),
        ensures
            final(self).wf(),
            is_computed_key(key@) ==> (r matches Err(StringStoreError::ComputedReadonly))
                && final(self)@ == old(self)@,
            !is_computed_key(key@) && !is_valid_key(key@) ==> (r matches Err(
                StringStoreError::InvalidKey,
            )) && final(self)@ == old(self)@,
            !is_computed_key(key@) && is_valid_key(key@) ==> {
                &&& r is Ok
                &&& (r->Ok_0 is Markdown <==> is_multiline(value@))
                &&& final(self)@ == (StringStoreView {
                    user: old(self)@.user.insert(key@, value@),
                    ..old(self)@
                })
            },
    {
        let kc = chars_of(key);
        if kc.len() > 0 && kc[0] == '$' {
            return Err(StringStoreError::ComputedReadonly);
        }
        if !is_valid_key_str(key) {
            return Err(StringStoreError::InvalidKey);
        }
        let ghost c0 = self@.computed;
        self.user.insert(key.to_owned(), value.to_owned());
        assert(self@.computed == c0);
        if is_multiline_str(value) {
            Ok(StorageLayer::Markdown)
        } else {
            Ok(StorageLayer::Json)
        }
    }

    /// Deletes a user string; the caller then removes it from both layers.
    pub fn delete(&mut self, key: &str) -> (r: Result<(), StringStoreError>)
        requires
            old(self).wf(),
        ensures
            final(self).wf(),
            is_computed_key(key@) ==> (r matches Err(StringStoreError::ComputedReadonly))
                && final(self)@ == old(self)@,
            !is_computed_key(key@) && !is_valid_key(key@) ==> (r matches Err(
                StringStoreError::InvalidKey,
            )) && final(self)@ == old(self)@,
            !is_computed_key(key@) && is_valid_key(key@) ==> r is Ok && final(self)@
                == (StringStoreView { user: old(self)@.user.remove(key@), ..old(self)@ }),
    {
        let kc = chars_of(key);
        if kc.len() > 0 && kc[0] == '$' {
            return Err(StringStoreError::ComputedReadonly);
        }
        if !is_valid_key_str(key) {
            return Err(StringStoreError::InvalidKey);
        }
        let ghost c0 = self@.computed;
        self.user.remove(key);
        assert(self@.computed == c0);
        Ok(())
    }

    /// Publishes a computed string under a `$`-prefixed key.
    pub fn set_computed(&mut self, key: &str, value: String)
        requires
            old(self).wf(),
            is_computed_key(key@),
        ensures
            final(self).wf(),
            final(self)@ == (StringStoreView {
                computed: old(self)@.computed.insert(key@, value@),
                ..old(self)@
            }),
    {
        let ghost c0 = self@.computed;
        self.computed.insert(key.to_owned(), value);
        assert forall|k: Seq<char>| #[trigger] self@.computed.contains_key(k) implies is_computed_key(k) by {
            if k != key@ {
                assert(c0.contains_key(k));
            }
        }
    }

    /// Withdraws a computed string.
    pub fn clear_computed(&mut self, key: &str)
        requires
            old(self).wf(),
        ensures
            final(self).wf(),
            final(self)@ == (StringStoreView {
                computed: old(self)@.computed.remove(key@),
                ..old(self)@
            }),
    {
        let ghost c0 = self@.computed;
        self.computed.remove(key);
        assert forall|k: Seq<char>| #[trigger] self@.computed.contains_key(k) implies is_computed_key(k) by {
            assert(c0.contains_key(k));
        }
    }

    /// Replaces the user strings with the persisted layers: the pairs of the
    /// JSON file, then the Markdown files as (file name, content) pairs.
    /// Computed strings are kept.
    pub fn reload(&mut self, json: Vec<(String, String)>, markdown: Vec<(String, String)>)
        requires
            old(self).wf(),
        ensures
            final(self).wf(),
            final(self)@ == (StringStoreView {
                user: layered(
                    json@.map_values(|e: (String, String)| (e.0@, e.1@)),
                    markdown@.map_values(|e: (String, String)| (e.0@, e.1@)),
                ),
                ..old(self)@
            }),
    {
        let ghost js = json@.map_values(|e: (String, String)| (e.0@, e.1@));
        let ghost ms = markdown@.map_values(|e: (String, String)| (e.0@, e.1@));
        let ghost c0 = self@.computed;
        self.user.clear();
        assert(self@.computed == c0);
        let mut i: usize = 0;
        while i < json.len()
            invariant
                self.wf(),
                self@.computed == old(self)@.computed,
                js == json@.map_values(|e: (String, String)| (e.0@, e.1@)),
                i <= json@.len(),
                self@.user == pairs_map(js.take(i as int)),
            decreases json@.len() - i,
        {
            assert(js.take(i + 1).drop_last() == js.take(i as int));
            self.user.insert(json[i].0.clone(), json[i].1.clone());
            i = i + 1;
        }
        assert(js.take(json@.len() as int) == js);
        let mut j: usize = 0;
        while j < markdown.len()
            invariant
                self.wf(),
                self@.computed == old(self)@.computed,
                js == json@.map_values(|e: (String, String)| (e.0@, e.1@)),
                ms == markdown@.map_values(|e: (String, String)| (e.0@, e.1@)),
                j <= markdown@.len(),
                self@.user == layered(js, ms.take(j as int)),
            decreases markdown@.len() - j,
        {
            assert(ms.take(j + 1).drop_last() == ms.take(j as int));
            match markdown_key(markdown[j].0.as_str()) {
                Some(k) => {
                    self.user.insert(k, markdown[j].1.clone());
                },
                None => {},
            }
            j = j + 1;
        }
        assert(ms.take(markdown@.len() as int) == ms);
    }
}

// ── Laws ────────────────────────────────────────────────────────────────────

/// A user string that was set is listed with the value written: no computed
/// string can shadow a valid key.
pub proof fn lemma_written_value_listed(s: StringStoreView, k: Seq<char>, v: Seq<char>)
    requires
        computed_keys_prefixed(s),
        is_valid_key(k),
    ensures
        s.user.insert(k, v).union_prefer_right(s.computed).contains_key(k),
        s.user.insert(k, v).union_prefer_right(s.computed)[k] == v,
{
    assert(is_key_char(k[0]));
    assert(!s.computed.contains_key(k));
}

/// A deleted user string is no longer listed.
pub proof fn lemma_deleted_not_listed(s: StringStoreView, k: Seq<char>)
    requires
        computed_keys_prefixed(s),
        is_valid_key(k),
    ensures
        !s.user.remove(k).union_prefer_right(s.computed).contains_key(k),
{
    assert(is_key_char(k[0]));
}

/// A computed string wins over a user string of the same key.
pub proof fn lemma_computed_wins(s: StringStoreView, k: Seq<char>)
    requires
        s.computed.contains_key(k),
    ensures
        s.user.union_prefer_right(s.computed)[k] == s.computed[k],
{
}

/// The Markdown layer wins over the JSON layer: a key given by a Markdown
/// file holds the content of the last file that gives it.
pub proof fn lemma_markdown_wins(
    json: Seq<(Seq<char>, Seq<char>)>,
    markdown: Seq<(Seq<char>, Seq<char>)>,
    i: int,
    k: Seq<char>,
)
    requires
        0 <= i < markdown.len(),
        markdown_key_of(markdown[i].0) == Some(k),
        forall|j: int| i < j < markdown.len() ==> markdown_key_of(#[trigger] markdown[j].0) != Some(k),
    ensures
        layered(json, markdown).contains_key(k),
        layered(json, markdown)[k] == markdown[i].1,
    decreases markdown.len(),
{
    let d = markdown.drop_last();
    if i < markdown.len() - 1 {
        assert forall|j: int| i < j < d.len() implies markdown_key_of(#[trigger] d[j].0) != Some(k) by {
            assert(d[j] == markdown[j]);
        }
        assert(d[i] == markdown[i]);
        lemma_markdown_wins(json, d, i, k);
        assert(markdown_key_of(markdown[markdown.len() - 1].0) != Some(k));
    }
}

} // verus!
