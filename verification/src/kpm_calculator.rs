//! Sliding-window keystrokes-per-minute calculator.
//!
//! Receives timestamped keystroke batches and keeps those inside a sliding
//! window. The rate itself is a floating-point quotient computed by the
//! caller from `window_totals`; peak hold and decay are left to the viewer.

use vstd::prelude::*;

use std::collections::VecDeque;

use crate::audio_buffer::keep_last;
use crate::seq_filter::lemma_filter_split;

verus! {

/// The shortest span of data (in microseconds) for a meaningful rate.
pub const MIN_SPAN_US: u64 = 200_000;

/// The abstract state: batches oldest first as (timestamp, count), the
/// window length in microseconds and the hard cap on batches kept.
pub struct KpmModel {
    pub entries: Seq<(u64, u32)>,
    pub window_us: nat,
    pub capacity: nat,
}

/// `s` without its leading batches older than `cutoff`.
pub open spec fn drop_older(s: Seq<(u64, u32)>, cutoff: u64) -> Seq<(u64, u32)>
    decreases s.len(),
{
    if s.len() > 0 && s[0].0 < cutoff {
        drop_older(s.drop_first(), cutoff)
    } else {
        s
    }
}

/// The cutoff for a batch stamped `t`: `t - window`, or 0 when the window
/// reaches back past 0.
pub open spec fn cutoff_for(t: u64, window_us: nat) -> u64 {
    if t >= window_us {
        (t - window_us) as u64
    } else {
        0
    }
}

/// The state after a batch: appended, then batches older than the window
/// leave from the front, then the oldest beyond the cap leave.
pub open spec fn model_push(m: KpmModel, t: u64, count: u32) -> KpmModel {
    KpmModel {
        entries: keep_last(drop_older(m.entries.push((t, count)), cutoff_for(t, m.window_us)), m.capacity),
        ..m
    }
}

/// The sum of the counts of `s`.
pub open spec fn total_count(s: Seq<(u64, u32)>) -> nat
    decreases s.len(),
{
    if s.len() == 0 {
        0
    } else {
        total_count(s.drop_last()) + s.last().1 as nat
    }
}

/// The span of a window whose newest batch is not older than its oldest.
pub open spec fn span_defined(s: Seq<(u64, u32)>) -> bool {
    s.len() < 2 || s.last().0 >= s[0].0
}

/// The inputs of the rate: with at least two batches spanning at least
/// `MIN_SPAN_US`, the total count and the span; otherwise `None` (a rate of
/// zero).
pub open spec fn window_totals_of(s: Seq<(u64, u32)>) -> Option<(nat, nat)> {
    if s.len() < 2 || s.last().0 - s[0].0 < MIN_SPAN_US {
        None
    } else {
        Some((total_count(s), (s.last().0 - s[0].0) as nat))
    }
}

/// Computes keystrokes per minute from a sliding window of recent batches.
pub struct KpmCalculator {
    entries: VecDeque<(u64, u32)>,
    /// Sliding window length in microseconds.
    window_us: u64,
    /// Maximum number of batches kept.
    capacity: usize,
}

impl View for KpmCalculator {
    type V = KpmModel;

    closed spec fn view(&self) -> KpmModel {
        KpmModel {
            entries: self.entries@,
            window_us: self.window_us as nat,
            capacity: self.capacity as nat,
        }
    }
}

impl KpmCalculator {
    /// A calculator with a window of `window_ms` milliseconds fed every
    /// `batch_ms` milliseconds; it keeps at most `window_ms / batch_ms + 10`
    /// batches.
    pub fn new(window_ms: u64, batch_ms: u64) -> (c: KpmCalculator)
        requires
            batch_ms > 0,
            window_ms * 1000 <= u64::MAX,
            window_ms / batch_ms + 10 <= usize::MAX,
        ensures
            c@ == (KpmModel {
                entries: Seq::empty(),
                window_us: (window_ms * 1000) as nat,
                capacity: (window_ms / batch_ms + 10) as nat,
            }),
    {
        KpmCalculator {
            entries: VecDeque::new(),
            window_us: window_ms * 1000,
            capacity: (window_ms / batch_ms + 10) as usize,
        }
    }

    /// Records a batch of `count` keystrokes stamped `timestamp_us`.
    pub fn push_batch(&mut self, timestamp_us: u64, count: u32)
        ensures
            final(self)@ == model_push(old(self)@, timestamp_us, count),
    {
        self.entries.push_back((timestamp_us, count));
        let ghost pushed = self.entries@;
        let cutoff = if timestamp_us >= self.window_us {
            timestamp_us - self.window_us
        } else {
            0
        };
        assert(cutoff == cutoff_for(timestamp_us, self.window_us as nat));
        while self.entries.len() > 0 && self.entries[0].0 < cutoff
            invariant
                drop_older(self.entries@, cutoff) == drop_older(pushed, cutoff),
                self.window_us == old(self).window_us,
                self.capacity == old(self).capacity,
            decreases self.entries@.len(),
        {
            let ghost before = self.entries@;
            let _ = self.entries.pop_front();
            assert(self.entries@ == before.drop_first());
        }
        let ghost kept = self.entries@;
        assert(kept == drop_older(pushed, cutoff));
        while self.entries.len() > self.capacity
            invariant
                self.capacity == old(self).capacity,
                self.window_us == old(self).window_us,
                keep_last(self.entries@, self.capacity as nat) == keep_last(kept, self.capacity as nat),
            decreases self.entries@.len(),
        {
            let ghost before = self.entries@;
            let _ = self.entries.pop_front();
            assert(keep_last(self.entries@, self.capacity as nat) == keep_last(before, self.capacity as nat));
        }
    }

    /// The number of batches in the window.
    pub fn len(&self) -> (n: usize)
        ensures
            n == self@.entries.len(),
    {
        self.entries.len()
    }

    /// Whether the newest batch is not older than the oldest, so that the
    /// window's span is defined.
    pub fn span_defined(&self) -> (b: bool)
        ensures
            b == span_defined(self@.entries),
    {
        let n = self.entries.len();
        n < 2 || self.entries[n - 1].0 >= self.entries[0].0
    }

    /// The total count and the span (in microseconds) of the window, or
    /// `None` when there are fewer than two batches or they span less than
    /// `MIN_SPAN_US`. The rate is `total / span` keystrokes per microsecond.
    pub fn window_totals(&self) -> (r: Option<(u128, u64)>)
        requires
            span_defined(self@.entries),
        ensures
            match r {
                Some((t, s)) => window_totals_of(self@.entries) == Some((t as nat, s as nat)),
                None => window_totals_of(self@.entries) is None,
            },
    {
        let n = self.entries.len();
        if n < 2 {
            return None;
        }
        let span = self.entries[n - 1].0 - self.entries[0].0;
        if span < MIN_SPAN_US {
            return None;
        }
        let ghost s = self.entries@;
        let mut total: u128 = 0;
        let mut i: usize = 0;
        while i < n
            invariant
                n == s.len(),
                s == self.entries@,
                i <= n,
                total == total_count(s.take(i as int)),
                total <= i * 0xFFFF_FFFFu128,
            decreases n - i,
        {
            assert(s.take(i + 1).drop_last() == s.take(i as int));
            let c = self.entries[i].1;
            assert(total + (c as u128) <= (i + 1) * 0xFFFF_FFFFu128) by (nonlinear_arith)
                requires
                    total <= i * 0xFFFF_FFFFu128,
                    c <= 0xFFFF_FFFFu32,
            ;
            assert((i + 1) * 0xFFFF_FFFFu128 <= u128::MAX) by (nonlinear_arith)
                requires
                    i < n,
                    n <= usize::MAX,
                    usize::MAX <= u64::MAX,
            ;
            total = total + c as u128;
            i = i + 1;
        }
        assert(s.take(n as int) == s);
        Some((total, span))
    }

    /// Clears every batch (e.g. when the capture process restarts).
    pub fn reset(&mut self)
        ensures
            final(self)@ == (KpmModel { entries: Seq::empty(), ..old(self)@ }),
    {
        self.entries.clear();
    }
}

// ── Laws ────────────────────────────────────────────────────────────────────

/// Batches that arrive in time order stay in time order, every batch kept
/// lies inside the window of the newest, at most `capacity` are kept, and
/// the newest is the one just pushed.
pub proof fn lemma_push_keeps_window(m: KpmModel, t: u64, count: u32)
    requires
        forall|i: int, j: int| 0 <= i <= j < m.entries.len() ==> m.entries[i].0 <= m.entries[j].0,
        m.entries.len() > 0 ==> m.entries.last().0 <= t,
        m.capacity > 0,
    ensures
        ({
            let r = model_push(m, t, count).entries;
            &&& forall|i: int, j: int| 0 <= i <= j < r.len() ==> r[i].0 <= r[j].0
            &&& forall|i: int| 0 <= i < r.len() ==> r[i].0 >= cutoff_for(t, m.window_us)
            &&& r.len() <= m.capacity
            &&& r.len() > 0 && r.last() == (t, count)
        }),
{
    let p = m.entries.push((t, count));
    let c = cutoff_for(t, m.window_us);
    lemma_drop_older(p, c);
    let d = drop_older(p, c);
    assert(t >= c);
    let r = keep_last(d, m.capacity);
    if d.len() > m.capacity {
        assert forall|i: int| 0 <= i < r.len() implies r[i] == d[i + d.len() - m.capacity] by {}
    }
}

/// `drop_older` removes a prefix: what is left is a suffix of the input
/// whose first element (if any) is not older than the cutoff; in sorted
/// input nothing left is older than the cutoff.
proof fn lemma_drop_older(s: Seq<(u64, u32)>, cutoff: u64)
    requires
        forall|i: int, j: int| 0 <= i <= j < s.len() ==> s[i].0 <= s[j].0,
        s.len() > 0 ==> s.last().0 >= cutoff,
    ensures
        ({
            let d = drop_older(s, cutoff);
            &&& d.len() <= s.len()
            &&& d == s.skip(s.len() - d.len())
            &&& d.len() > 0 || s.len() == 0
            &&& forall|i: int| 0 <= i < d.len() ==> d[i].0 >= cutoff
            &&& forall|i: int| 0 <= i < s.len() - d.len() ==> s[i].0 < cutoff
        }),
    decreases s.len(),
{
    if s.len() > 0 && s[0].0 < cutoff {
        let t = s.drop_first();
        assert forall|i: int, j: int| 0 <= i <= j < t.len() implies t[i].0 <= t[j].0 by {
            assert(t[i] == s[i + 1] && t[j] == s[j + 1]);
        }
        assert(t.len() > 0) by {
            assert(s.last().0 >= cutoff);
        }
        assert(t.last() == s.last());
        lemma_drop_older(t, cutoff);
        let d = drop_older(t, cutoff);
        assert(s.skip(s.len() - d.len()) == t.skip(t.len() - d.len()));
        assert forall|i: int| 0 <= i < s.len() - d.len() implies s[i].0 < cutoff by {
            if i > 0 {
                assert(s[i] == t[i - 1]);
            }
        }
    } else if s.len() > 0 {
        assert(s.skip(0) == s);
        assert forall|i: int| 0 <= i < s.len() implies s[i].0 >= cutoff by {
            assert(s[0].0 <= s[i].0);
        }
    }
}

/// Whether the batches of `s` are in time order.
pub open spec fn time_ordered(s: Seq<(u64, u32)>) -> bool {
    forall|i: int, j: int| 0 <= i <= j < s.len() ==> s[i].0 <= s[j].0
}

/// The calculator with the given window and cap after the batches of
/// `history` were pushed, oldest first, onto an empty one (as made by
/// `new` or `reset`).
pub open spec fn kpm_pushes(window_us: nat, capacity: nat, history: Seq<(u64, u32)>) -> KpmModel
    decreases history.len(),
{
    if history.len() == 0 {
        KpmModel { entries: Seq::empty(), window_us, capacity }
    } else {
        let b = history.last();
        model_push(kpm_pushes(window_us, capacity, history.drop_last()), b.0, b.1)
    }
}

/// The batches of a nonempty `history` inside the window of its newest
/// batch: those stamped at or after the newest stamp minus the window
/// (saturating at 0).
pub open spec fn recent_batches(window_us: nat, history: Seq<(u64, u32)>) -> Seq<(u64, u32)> {
    history.filter(|b: (u64, u32)| b.0 >= cutoff_for(history.last().0, window_us))
}

/// The state after the pushes of a time-ordered history, as a suffix of
/// it: everything from the later of the first batch inside the newest
/// window and the last `capacity` batches.
proof fn lemma_pushes_suffix(window_us: nat, capacity: nat, history: Seq<(u64, u32)>)
    requires
        capacity > 0,
        history.len() > 0,
        time_ordered(history),
    ensures
        ({
            let n = history.len() as int;
            let c = cutoff_for(history.last().0, window_us);
            let k = n - drop_older(history, c).len();
            let j = if k >= n - capacity { k } else { n - capacity };
            &&& 0 <= k < n
            &&& forall|i: int| 0 <= i < k ==> (#[trigger] history[i]).0 < c
            &&& forall|i: int| k <= i < n ==> (#[trigger] history[i]).0 >= c
            &&& kpm_pushes(window_us, capacity, history).entries == history.skip(j)
            &&& kpm_pushes(window_us, capacity, history).window_us == window_us
            &&& kpm_pushes(window_us, capacity, history).capacity == capacity
        }),
    decreases history.len(),
{
    let h = history;
    let n = h.len() as int;
    let x = h.last();
    let c = cutoff_for(x.0, window_us);
    lemma_drop_older(h, c);
    let k = n - drop_older(h, c).len();
    assert forall|i: int| k <= i < n implies (#[trigger] h[i]).0 >= c by {
        assert(h[i] == drop_older(h, c)[i - k]);
    }
    if n == 1 {
        assert(h.drop_last() =~= Seq::<(u64, u32)>::empty());
        let p = Seq::<(u64, u32)>::empty().push(x);
        assert(drop_older(p, c) == p);
        assert(p =~= h);
        assert(h.skip(0) =~= h);
    } else {
        let d = h.drop_last();
        assert forall|i: int, j: int| 0 <= i <= j < d.len() implies d[i].0 <= d[j].0 by {
            assert(d[i] == h[i] && d[j] == h[j]);
        }
        lemma_pushes_suffix(window_us, capacity, d);
        let cd = cutoff_for(d.last().0, window_us);
        let kd = (n - 1) - drop_older(d, cd).len();
        let jd = if kd >= n - 1 - capacity { kd } else { n - 1 - capacity };
        let prev = kpm_pushes(window_us, capacity, d);
        assert(prev.entries == d.skip(jd));
        // the cutoff only moves forward
        assert(d.last() == h[n - 2]);
        assert(d.last().0 <= x.0);
        assert(cd <= c);
        let p = prev.entries.push(x);
        assert(p =~= h.skip(jd));
        assert forall|i: int, j: int| 0 <= i <= j < p.len() implies p[i].0 <= p[j].0 by {
            assert(p[i] == h[jd + i] && p[j] == h[jd + j]);
        }
        lemma_drop_older(p, c);
        let dp = drop_older(p, c);
        let cp = p.len() - dp.len();
        let big = if jd >= k { jd } else { k };
        // the split of p is where the split of h falls inside it
        assert(cp == big - jd) by {
            if cp < big - jd {
                assert(p[cp].0 == h[jd + cp].0);
                assert(dp[0] == p[cp]);
            } else if cp > big - jd {
                let i = big - jd;
                assert(p[i] == h[jd + i]);
            }
        }
        assert(dp =~= h.skip(big));
        // batches older than the previous cutoff are older than this one
        assert(kd <= k) by {
            if kd > k {
                assert(d[k] == h[k]);
            }
        }
        let j = if k >= n - capacity { k } else { n - capacity };
        let r = kpm_pushes(window_us, capacity, h);
        assert(r.entries == keep_last(dp, capacity));
        if dp.len() > capacity {
            assert(keep_last(dp, capacity) =~= h.skip(j));
        } else {
            assert(keep_last(dp, capacity) =~= h.skip(j));
        }
    }
}

/// What the calculator keeps after any time-ordered sequence of batches
/// pushed since `new` or `reset`: the batches inside the window of the
/// newest one (stamped at or after its stamp minus the window, saturating
/// at 0), cut to the newest `capacity` of them. Those recent batches are
/// the longest suffix of the history inside the window: every earlier
/// batch is older than the window. The newest batch is always kept.
pub proof fn lemma_keeps_recent_suffix(window_us: nat, capacity: nat, history: Seq<(u64, u32)>)
    requires
        capacity > 0,
        history.len() > 0,
        time_ordered(history),
    ensures
        kpm_pushes(window_us, capacity, history).entries == keep_last(
            recent_batches(window_us, history),
            capacity,
        ),
        recent_batches(window_us, history) == history.skip(
            history.len() - recent_batches(window_us, history).len(),
        ),
        forall|i: int|
            0 <= i < history.len() - recent_batches(window_us, history).len() ==> (#[trigger] history[i]).0
                < cutoff_for(history.last().0, window_us),
        kpm_pushes(window_us, capacity, history).entries.len() <= capacity,
        kpm_pushes(window_us, capacity, history).entries.last() == history.last(),
{
    lemma_pushes_suffix(window_us, capacity, history);
    let h = history;
    let n = h.len() as int;
    let c = cutoff_for(h.last().0, window_us);
    let k = n - drop_older(h, c).len();
    let pred = |b: (u64, u32)| b.0 >= c;
    assert forall|i: int| 0 <= i < k implies !pred(#[trigger] h[i]) by {}
    assert forall|i: int| k <= i < h.len() implies pred(#[trigger] h[i]) by {}
    lemma_filter_split(h, pred, k);
    let rb = recent_batches(window_us, h);
    assert(rb == h.skip(k));
    let j = if k >= n - capacity { k } else { n - capacity };
    let e = kpm_pushes(window_us, capacity, h).entries;
    if rb.len() > capacity {
        assert(keep_last(rb, capacity) =~= h.skip(j));
    } else {
        assert(keep_last(rb, capacity) =~= h.skip(j));
    }
    assert(e.last() == h[n - 1]);
}

} // verus!
