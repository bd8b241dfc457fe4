//! A small map keyed by strings, held as a list of pairs with distinct keys
//! in insertion order and viewed as a `Map`.

use vstd::prelude::*;

verus! {

/// The map a list of pairs denotes; a later pair wins over an earlier one
/// with the same key.
pub open spec fn pairs_map<V>(s: Seq<(Seq<char>, V)>) -> Map<Seq<char>, V>
    decreases s.len(),
{
    if s.len() == 0 {
        Map::empty()
    } else {
        pairs_map(s.drop_last()).insert(s.last().0, s.last().1)
    }
}

/// No key occurs twice.
pub open spec fn distinct_keys<V>(s: Seq<(Seq<char>, V)>) -> bool {
    forall|i: int, j: int| 0 <= i < j < s.len() ==> (#[trigger] s[i]).0 != (#[trigger] s[j]).0
}

/// The keys of `pairs_map(s)` are the keys of `s`, and with distinct keys
/// each maps to the value it is paired with.
pub proof fn lemma_pairs_map<V>(s: Seq<(Seq<char>, V)>)
    ensures
        forall|k: Seq<char>|
            pairs_map(s).contains_key(k) <==> exists|i: int| 0 <= i < s.len() && (#[trigger] s[i]).0 == k,
        distinct_keys(s) ==> forall|i: int|
            0 <= i < s.len() ==> pairs_map(s)[(#[trigger] s[i]).0] == s[i].1,
    decreases s.len(),
{
    if s.len() > 0 {
        let d = s.drop_last();
        lemma_pairs_map(d);
        assert(pairs_map(s) == pairs_map(d).insert(s.last().0, s.last().1));
        assert forall|k: Seq<char>| #[trigger] pairs_map(s).contains_key(k) implies exists|i: int|
            0 <= i < s.len() && (#[trigger] s[i]).0 == k by {
            if k == s.last().0 {
                assert(s[s.len() - 1].0 == k);
            } else {
                assert(pairs_map(d).contains_key(k));
                let i = choose|i: int| 0 <= i < d.len() && (#[trigger] d[i]).0 == k;
                assert(s[i] == d[i]);
            }
        }
        assert forall|k: Seq<char>| (exists|i: int| 0 <= i < s.len() && (#[trigger] s[i]).0 == k) implies
            #[trigger] pairs_map(s).contains_key(k) by {
            let i = choose|i: int| 0 <= i < s.len() && (#[trigger] s[i]).0 == k;
            if i < s.len() - 1 {
                assert(d[i] == s[i]);
                assert(pairs_map(d).contains_key(k));
            }
        }
        if distinct_keys(s) {
            assert(distinct_keys(d)) by {
                assert forall|i: int, j: int| 0 <= i < j < d.len() implies (#[trigger] d[i]).0 != (
                #[trigger] d[j]).0 by {
                    assert(d[i] == s[i] && d[j] == s[j]);
                }
            }
            assert forall|i: int| 0 <= i < s.len() implies pairs_map(s)[(#[trigger] s[i]).0]
                == s[i].1 by {
                if i < s.len() - 1 {
                    assert(d[i] == s[i]);
                    assert(s[i].0 != s[s.len() - 1].0);
                }
            }
        }
    }
}

/// A map from strings to `V`, in insertion order.
pub struct StrMap<V> {
    entries: Vec<(String, V)>,
}

impl<V: DeepView> StrMap<V> {
    /// The pairs, keys and values taken by their deep views.
    pub closed spec fn pairs(&self) -> Seq<(Seq<char>, V::V)> {
        self.entries@.map_values(|e: (String, V)| (e.0@, e.1.deep_view()))
    }

    pub closed spec fn wf(&self) -> bool {
        distinct_keys(self.pairs())
    }

    pub closed spec fn view(&self) -> Map<Seq<char>, V::V> {
        pairs_map(self.pairs())
    }

    /// Every stored value satisfies `p`.
    pub closed spec fn values_satisfy(&self, p: spec_fn(V) -> bool) -> bool {
        forall|i: int| 0 <= i < self.entries@.len() ==> p(#[trigger] self.entries@[i].1)
    }

    /// The empty map.
    pub fn new() -> (m: Self)
        ensures
            m.wf(),
            m.view() == Map::<Seq<char>, V::V>::empty(),
            forall|p: spec_fn(V) -> bool| #[trigger] m.values_satisfy(p),
    {
        let m = StrMap { entries: Vec::new() };
        assert(m.pairs() == Seq::<(Seq<char>, V::V)>::empty());
        m
    }

    /// The number of keys.
    pub fn len(&self) -> (n: usize)
        requires
            self.wf(),
        ensures
            n == self.view().dom().len(),
    {
        proof {
            self.lemma_dom_len();
        }
        self.entries.len()
    }

    proof fn lemma_dom_len(&self)
        requires
            self.wf(),
        ensures
            self.view().dom().len() == self.entries@.len(),
            self.view().dom().finite(),
        decreases self.entries@.len(),
    {
        lemma_distinct_dom_len(self.pairs());
    }

    /// The pairs, in insertion order: each key of the map exactly once with
    /// its value.
    pub fn entries(&self) -> (es: &Vec<(String, V)>)
        requires
            self.wf(),
        ensures
            es@.map_values(|e: (String, V)| (e.0@, e.1.deep_view())) == self.pairs(),
            distinct_keys(self.pairs()),
            pairs_map(self.pairs()) == self.view(),
            es@.len() == self.view().dom().len(),
            forall|p: spec_fn(V) -> bool, i: int|
                #![trigger self.values_satisfy(p), es@[i]]
                self.values_satisfy(p) && 0 <= i < es@.len() ==> p(es@[i].1),
    {
        proof {
            self.lemma_dom_len();
        }
        &self.entries
    }

    /// Position of `key`, if present.
    fn find(&self, key: &str) -> (r: Option<usize>)
        requires
            self.wf(),
        ensures
            match r {
                Some(i) => i < self.entries@.len() && self.pairs()[i as int].0 == key@,
                None => forall|i: int| 0 <= i < self.entries@.len() ==> self.pairs()[i].0 != key@,
            },
    {
        let k = key.to_owned();
        let mut i: usize = 0;
        while i < self.entries.len()
            invariant
                k@ == key@,
                i <= self.entries@.len(),
                forall|j: int| 0 <= j < i ==> self.pairs()[j].0 != key@,
            decreases self.entries@.len() - i,
        {
            if self.entries[i].0 == k {
                return Some(i);
            }
            i = i + 1;
        }
        None
    }

    /// The value stored under `key`.
    pub fn get(&self, key: &str) -> (r: Option<&V>)
        requires
            self.wf(),
        ensures
            match r {
                Some(v) => self.view().contains_key(key@) && self.view()[key@] == v.deep_view(),
                None => !self.view().contains_key(key@),
            },
            forall|p: spec_fn(V) -> bool| #[trigger] self.values_satisfy(p) && r is Some ==> p(*r->0),
    {
        proof {
            lemma_pairs_map(self.pairs());
        }
        match self.find(key) {
            Some(i) => {
                let r = &self.entries[i].1;
                assert(self.pairs()[i as int].1 == r.deep_view());
                Some(r)
            },
            None => None,
        }
    }

    /// Whether `key` is present.
    pub fn contains_key(&self, key: &str) -> (b: bool)
        requires
            self.wf(),
        ensures
            b == self.view().contains_key(key@),
    {
        proof {
            lemma_pairs_map(self.pairs());
        }
        self.find(key).is_some()
    }

    /// Stores `value` under `key`, replacing any earlier value.
    pub fn insert(&mut self, key: String, value: V)
        requires
            old(self).wf(),
        ensures
            final(self).wf(),
            final(self).view() == old(self).view().insert(key@, value.deep_view()),
            forall|p: spec_fn(V) -> bool|
                old(self).values_satisfy(p) && p(value) ==> #[trigger] final(self).values_satisfy(p),
    {
        let ghost old_pairs = self.pairs();
        let ghost e = (key@, value.deep_view());
        proof {
            lemma_pairs_map(old_pairs);
        }
        match self.find(key.as_str()) {
            Some(i) => {
                self.entries.set(i, (key, value));
                proof {
                    let s = self.pairs();
                    assert(s == old_pairs.update(i as int, e));
                    assert(distinct_keys(s)) by {
                        assert forall|a: int, b: int| 0 <= a < b < s.len() implies (#[trigger] s[a]).0
                            != (#[trigger] s[b]).0 by {
                            assert(old_pairs[a].0 != old_pairs[b].0);
                        }
                    }
                    lemma_pairs_map(s);
                    assert forall|k: Seq<char>| #[trigger] pairs_map(s).contains_key(k)
                        == pairs_map(old_pairs).insert(e.0, e.1).contains_key(k) by {
                        if pairs_map(s).contains_key(k) {
                            let j = choose|j: int| 0 <= j < s.len() && (#[trigger] s[j]).0 == k;
                            if j != i {
                                assert(old_pairs[j].0 == k);
                            }
                        }
                        if pairs_map(old_pairs).contains_key(k) {
                            let j = choose|j: int| 0 <= j < old_pairs.len() && (#[trigger] old_pairs[j]).0 == k;
                            assert(s[j].0 == k);
                        }
                    }
                    assert forall|k: Seq<char>| #[trigger] pairs_map(s).contains_key(k) implies pairs_map(s)[k]
                        == pairs_map(old_pairs).insert(e.0, e.1)[k] by {
                        let j = choose|j: int| 0 <= j < s.len() && (#[trigger] s[j]).0 == k;
                        if j != i {
                            assert(old_pairs[j] == s[j]);
                        }
                    }
                    assert(pairs_map(s) =~= pairs_map(old_pairs).insert(e.0, e.1));
                    assert forall|p: spec_fn(V) -> bool|
                        old(self).values_satisfy(p) && p(value) implies #[trigger] self.values_satisfy(p) by {
                        assert forall|j: int| 0 <= j < self.entries@.len() implies p(
                            #[trigger] self.entries@[j].1,
                        ) by {
                            if j != i {
                                assert(self.entries@[j] == old(self).entries@[j]);
                            }
                        }
                    }
                }
            },
            None => {
                self.entries.push((key, value));
                proof {
                    let s = self.pairs();
                    assert(s == old_pairs.push(e));
                    assert(s.drop_last() == old_pairs);
                    assert(distinct_keys(s)) by {
                        assert forall|a: int, b: int| 0 <= a < b < s.len() implies (#[trigger] s[a]).0
                            != (#[trigger] s[b]).0 by {
                            if b < s.len() - 1 {
                                assert(old_pairs[a].0 != old_pairs[b].0);
                            } else {
                                assert(old_pairs[a].0 != key@);
                            }
                        }
                    }
                    assert forall|p: spec_fn(V) -> bool|
                        old(self).values_satisfy(p) && p(value) implies #[trigger] self.values_satisfy(p) by {
                        assert forall|j: int| 0 <= j < self.entries@.len() implies p(
                            #[trigger] self.entries@[j].1,
                        ) by {
                            if j < old(self).entries@.len() {
                                assert(self.entries@[j] == old(self).entries@[j]);
                            }
                        }
                    }
                }
            },
        }
    }

    /// Removes `key` and its value, if present.
    pub fn remove(&mut self, key: &str)
        requires
            old(self).wf(),
        ensures
            final(self).wf(),
            final(self).view() == old(self).view().remove(key@),
            forall|p: spec_fn(V) -> bool|
                old(self).values_satisfy(p) ==> #[trigger] final(self).values_satisfy(p),
    {
        let _ = self.take(key);
    }

    /// Removes `key` and hands back its value, if present.
    pub fn take(&mut self, key: &str) -> (r: Option<V>)
        requires
            old(self).wf(),
        ensures
            final(self).wf(),
            final(self).view() == old(self).view().remove(key@),
            match r {
                Some(v) => old(self).view().contains_key(key@) && old(self).view()[key@]
                    == v.deep_view(),
                None => !old(self).view().contains_key(key@),
            },
            forall|p: spec_fn(V) -> bool|
                old(self).values_satisfy(p) ==> #[trigger] final(self).values_satisfy(p) && (r is Some
                    ==> p(r->0)),
    {
        let ghost old_pairs = self.pairs();
        proof {
            lemma_pairs_map(old_pairs);
        }
        match self.find(key) {
            Some(i) => {
                let (_, v) = self.entries.remove(i);
                proof {
                    let s = self.pairs();
                    assert(s == old_pairs.remove(i as int));
                    assert(distinct_keys(s)) by {
                        assert forall|a: int, b: int| 0 <= a < b < s.len() implies (#[trigger] s[a]).0
                            != (#[trigger] s[b]).0 by {
                            let a0 = if a < i { a } else { a + 1 };
                            let b0 = if b < i { b } else { b + 1 };
                            assert(s[a] == old_pairs[a0] && s[b] == old_pairs[b0]);
                        }
                    }
                    lemma_pairs_map(s);
                    assert forall|k: Seq<char>| #[trigger] pairs_map(s).contains_key(k)
                        == pairs_map(old_pairs).remove(key@).contains_key(k) by {
                        if pairs_map(s).contains_key(k) {
                            let j = choose|j: int| 0 <= j < s.len() && (#[trigger] s[j]).0 == k;
                            let j0 = if j < i { j } else { j + 1 };
                            assert(old_pairs[j0] == s[j]);
                            assert(j0 != i);
                        }
                        if pairs_map(old_pairs).remove(key@).contains_key(k) {
                            let j = choose|j: int| 0 <= j < old_pairs.len() && (#[trigger] old_pairs[j]).0 == k;
                            assert(j != i);
                            let j1 = if j < i { j } else { j - 1 };
                            assert(s[j1] == old_pairs[j]);
                        }
                    }
                    assert forall|k: Seq<char>| #[trigger] pairs_map(s).contains_key(k) implies pairs_map(s)[k]
                        == pairs_map(old_pairs)[k] by {
                        let j = choose|j: int| 0 <= j < s.len() && (#[trigger] s[j]).0 == k;
                        let j0 = if j < i { j } else { j + 1 };
                        assert(old_pairs[j0] == s[j]);
                    }
                    assert(pairs_map(s) =~= pairs_map(old_pairs).remove(key@));
                    assert(old_pairs[i as int].1 == v.deep_view());
                    assert forall|p: spec_fn(V) -> bool|
                        old(self).values_satisfy(p) implies #[trigger] self.values_satisfy(p) && p(v) by {
                        assert(old(self).entries@[i as int].1 == v);
                        assert forall|j: int| 0 <= j < self.entries@.len() implies p(
                            #[trigger] self.entries@[j].1,
                        ) by {
                            let j0 = if j < i { j } else { j + 1 };
                            assert(self.entries@[j] == old(self).entries@[j0]);
                        }
                    }
                }
                Some(v)
            },
            None => {
                assert(pairs_map(old_pairs) =~= pairs_map(old_pairs).remove(key@));
                None
            },
        }
    }

    /// Whether the map has no keys.
    pub fn is_empty(&self) -> (b: bool)
        requires
            self.wf(),
        ensures
            b == (self.view() == Map::<Seq<char>, V::V>::empty()),
    {
        proof {
            lemma_pairs_map(self.pairs());
            if self.entries@.len() > 0 {
                assert(self.view().contains_key(self.pairs()[0].0));
            } else {
                assert(self.view() =~= Map::<Seq<char>, V::V>::empty());
            }
        }
        self.entries.len() == 0
    }

    /// Removes every key.
    pub fn clear(&mut self)
        ensures
            final(self).wf(),
            final(self).view() == Map::<Seq<char>, V::V>::empty(),
            forall|p: spec_fn(V) -> bool| #[trigger] final(self).values_satisfy(p),
    {
        self.entries.clear();
        assert(self.pairs() == Seq::<(Seq<char>, V::V)>::empty());
    }
}

/// With distinct keys, the map has exactly as many keys as there are pairs.
proof fn lemma_distinct_dom_len<V>(s: Seq<(Seq<char>, V)>)
    requires
        distinct_keys(s),
    ensures
        pairs_map(s).dom().finite(),
        pairs_map(s).dom().len() == s.len(),
    decreases s.len(),
{
    if s.len() > 0 {
        let d = s.drop_last();
        assert(distinct_keys(d)) by {
            assert forall|i: int, j: int| 0 <= i < j < d.len() implies (#[trigger] d[i]).0 != (
            #[trigger] d[j]).0 by {
                assert(d[i] == s[i] && d[j] == s[j]);
            }
        }
        lemma_distinct_dom_len(d);
        lemma_pairs_map(d);
        assert(!pairs_map(d).contains_key(s.last().0)) by {
            if pairs_map(d).contains_key(s.last().0) {
                let i = choose|i: int| 0 <= i < d.len() && (#[trigger] d[i]).0 == s.last().0;
                assert(s[i] == d[i]);
            }
        }
    }
}

} // verus!
