//! Facts about `Seq::filter` shared by the buffers, whose reads are
//! filters over their entries.

use vstd::prelude::*;

verus! {

/// Filtering keeps a strictly increasing key strictly increasing, and
/// keeps only elements of the original sequence.
pub proof fn lemma_filter_increasing<T>(s: Seq<T>, key: spec_fn(T) -> int, pred: spec_fn(T) -> bool)
    requires
        forall|i: int, j: int| 0 <= i < j < s.len() ==> key(s[i]) < key(s[j]),
    ensures
        forall|i: int, j: int|
            0 <= i < j < s.filter(pred).len() ==> key(s.filter(pred)[i]) < key(s.filter(pred)[j]),
        forall|i: int| 0 <= i < s.filter(pred).len() ==> s.contains(#[trigger] s.filter(pred)[i]),
    decreases s.len(),
{
    reveal_with_fuel(Seq::filter, 1);
    if s.len() > 0 {
        let d = s.drop_last();
        lemma_filter_increasing(d, key, pred);
        let f = s.filter(pred);
        let fd = d.filter(pred);
        assert forall|i: int| 0 <= i < fd.len() implies key(fd[i]) < key(s.last()) && s.contains(
            fd[i],
        ) by {
            assert(d.contains(fd[i]));
            let k = choose|k: int| 0 <= k < d.len() && d[k] == fd[i];
            assert(d[k] == s[k]);
        }
        if pred(s.last()) {
            assert(f == fd.push(s.last()));
            assert(s.contains(s[s.len() - 1]));
        } else {
            assert(f == fd);
        }
    }
}

/// A filter that rejects every element gives the empty sequence.
pub proof fn lemma_filter_all_rejected<T>(s: Seq<T>, pred: spec_fn(T) -> bool)
    requires
        forall|i: int| 0 <= i < s.len() ==> !pred(#[trigger] s[i]),
    ensures
        s.filter(pred) == Seq::<T>::empty(),
    decreases s.len(),
{
    reveal_with_fuel(Seq::filter, 1);
    if s.len() > 0 {
        let d = s.drop_last();
        assert forall|i: int| 0 <= i < d.len() implies !pred(#[trigger] d[i]) by {
            assert(d[i] == s[i]);
        }
        lemma_filter_all_rejected(d, pred);
        assert(!pred(s[s.len() - 1]));
    }
}

/// A filter that keeps every element gives the sequence back.
pub proof fn lemma_filter_all_kept<T>(s: Seq<T>, pred: spec_fn(T) -> bool)
    requires
        forall|i: int| 0 <= i < s.len() ==> pred(#[trigger] s[i]),
    ensures
        s.filter(pred) == s,
    decreases s.len(),
{
    reveal_with_fuel(Seq::filter, 1);
    if s.len() > 0 {
        let d = s.drop_last();
        assert forall|i: int| 0 <= i < d.len() implies pred(#[trigger] d[i]) by {
            assert(d[i] == s[i]);
        }
        lemma_filter_all_kept(d, pred);
        assert(pred(s[s.len() - 1]));
        assert(d.push(s.last()) == s);
    }
}

/// A filter that rejects exactly the elements before index `k` gives the
/// suffix from `k`.
pub proof fn lemma_filter_split<T>(s: Seq<T>, pred: spec_fn(T) -> bool, k: int)
    requires
        0 <= k <= s.len(),
        forall|i: int| 0 <= i < k ==> !pred(#[trigger] s[i]),
        forall|i: int| k <= i < s.len() ==> pred(#[trigger] s[i]),
    ensures
        s.filter(pred) == s.skip(k),
    decreases s.len(),
{
    reveal_with_fuel(Seq::filter, 1);
    if k == s.len() {
        lemma_filter_all_rejected(s, pred);
        assert(s.skip(k) =~= Seq::<T>::empty());
    } else {
        let d = s.drop_last();
        assert forall|i: int| 0 <= i < k implies !pred(#[trigger] d[i]) by {
            assert(d[i] == s[i]);
        }
        assert forall|i: int| k <= i < d.len() implies pred(#[trigger] d[i]) by {
            assert(d[i] == s[i]);
        }
        lemma_filter_split(d, pred, k);
        assert(pred(s[s.len() - 1]));
        assert(s.skip(k) =~= d.skip(k).push(s.last()));
    }
}

} // verus!
