//! Splitting the H.264 encoder's output into NAL units.
//!
//! The hardware encoder hands back Annex B byte streams: NAL units, each
//! introduced by a start code `00 00 00 01` or `00 00 01`. A unit runs from
//! its start code up to the next start code (or the end of the buffer) and
//! keeps its start code; units of a type this stream never carries are
//! dropped, as are bytes before the first start code.
//!
//! Among the hardware encoders the system offers, the one used is the first
//! whose friendly name mentions NVIDIA (in any ASCII letter case).

use vstd::prelude::*;

use crate::text::chars_of;

pub use crate::video_ipc::NALUnitType;

verus! {

/// An encoded H.264 NAL unit as the encoder produced it.
#[derive(Debug)]
pub struct NALUnit {
    /// Type of this NAL unit.
    pub unit_type: NALUnitType,
    /// Raw NAL unit data, including the start code.
    pub data: Vec<u8>,
    /// Timestamp in microseconds.
    pub timestamp_us: u64,
}

impl View for NALUnit {
    type V = (NALUnitType, Seq<u8>, u64);

    open spec fn view(&self) -> (NALUnitType, Seq<u8>, u64) {
        (self.unit_type, self.data@, self.timestamp_us)
    }
}

/// Length of the start code at `i`: 4 for `00 00 00 01`, 3 for `00 00 01`,
/// 0 when none starts there.
pub open spec fn start_code_len(d: Seq<u8>, i: int) -> int {
    if 0 <= i && i + 3 < d.len() && d[i] == 0 && d[i + 1] == 0 && d[i + 2] == 0 && d[i + 3] == 1 {
        4
    } else if 0 <= i && i + 2 < d.len() && d[i] == 0 && d[i + 1] == 0 && d[i + 2] == 1 {
        3
    } else {
        0
    }
}

/// Position of the first start code at or after `from`, or the length of
/// `d` when there is none.
pub open spec fn next_start(d: Seq<u8>, from: int) -> int
    decreases d.len() - from,
{
    if from >= d.len() {
        d.len() as int
    } else if start_code_len(d, from) > 0 {
        from
    } else {
        next_start(d, from + 1)
    }
}

/// The NAL units of `d` from position `i` on, each as its type and its
/// bytes from its start code up to the next start code.
pub open spec fn annexb_units(d: Seq<u8>, i: int) -> Seq<(NALUnitType, Seq<u8>)>
    decreases d.len() - i,
{
    if i < 0 || i >= d.len() {
        Seq::empty()
    } else if start_code_len(d, i) == 0 {
        annexb_units(d, i + 1)
    } else {
        let h = i + start_code_len(d, i);
        if h >= d.len() {
            Seq::empty()
        } else {
            let n = next_start(d, h + 1);
            proof {
                lemma_next_start(d, h + 1);
            }
            match NALUnitType::spec_from_header(d[h]) {
                Some(t) => seq![(t, d.subrange(i, n))] + annexb_units(d, n),
                None => annexb_units(d, n),
            }
        }
    }
}

/// The units of `d`, each stamped with `timestamp_us`.
pub open spec fn stamped_units(d: Seq<u8>, timestamp_us: u64) -> Seq<(NALUnitType, Seq<u8>, u64)> {
    annexb_units(d, 0).map_values(|u: (NALUnitType, Seq<u8>)| (u.0, u.1, timestamp_us))
}

/// `next_start` lies at or after `from` and no start code lies before it.
pub proof fn lemma_next_start(d: Seq<u8>, from: int)
    requires
        0 <= from,
    ensures
        from <= next_start(d, from) || (from > d.len() && next_start(d, from) == d.len()),
        next_start(d, from) <= d.len() || next_start(d, from) == from,
        forall|k: int| from <= k < next_start(d, from) ==> start_code_len(d, k) == 0,
        next_start(d, from) < d.len() ==> start_code_len(d, next_start(d, from)) > 0,
    decreases d.len() - from,
{
    if from < d.len() && start_code_len(d, from) == 0 {
        lemma_next_start(d, from + 1);
    }
}

/// A position with no start code between `from` and it, and a start code
/// (or the end) at it, is `next_start(d, from)`.
proof fn lemma_next_start_is(d: Seq<u8>, from: int, j: int)
    requires
        0 <= from <= j <= d.len(),
        forall|k: int| from <= k < j ==> start_code_len(d, k) == 0,
        j == d.len() || start_code_len(d, j) > 0,
    ensures
        next_start(d, from) == j,
    decreases j - from,
{
    if from < j {
        lemma_next_start_is(d, from + 1, j);
    }
}

/// Every unit the scan produces begins with a start code followed by a
/// header byte whose type is the unit's type.
pub proof fn lemma_units_begin_with_start_code(d: Seq<u8>, i: int)
    ensures
        forall|k: int|
            0 <= k < annexb_units(d, i).len() ==> {
                let u = #[trigger] annexb_units(d, i)[k];
                let sc = start_code_len(u.1, 0);
                &&& sc > 0
                &&& sc < u.1.len()
                &&& NALUnitType::spec_from_header(u.1[sc]) == Some(u.0)
            },
    decreases d.len() - i,
{
    if 0 <= i < d.len() {
        if start_code_len(d, i) == 0 {
            lemma_units_begin_with_start_code(d, i + 1);
        } else {
            let h = i + start_code_len(d, i);
            if h < d.len() {
                let n = next_start(d, h + 1);
                lemma_next_start(d, h + 1);
                lemma_units_begin_with_start_code(d, n);
                let rest = annexb_units(d, n);
                match NALUnitType::spec_from_header(d[h]) {
                    Some(t) => {
                        let sub = d.subrange(i, n);
                        assert(start_code_len(sub, 0) == start_code_len(d, i));
                        assert(sub[h - i] == d[h]);
                        let all = seq![(t, sub)] + rest;
                        assert forall|k: int| 1 <= k < all.len() implies all[k] == rest[k - 1] by {}
                    },
                    None => {},
                }
            }
        }
    }
}

/// Copies `data[lo..hi]` into a new vector.
fn copy_range(data: &[u8], lo: usize, hi: usize) -> (v: Vec<u8>)
    requires
        lo <= hi <= data@.len(),
    ensures
        v@ == data@.subrange(lo as int, hi as int),
{
    let mut v: Vec<u8> = Vec::new();
    let mut k: usize = lo;
    while k < hi
        invariant
            lo <= k <= hi <= data@.len(),
            v@ == data@.subrange(lo as int, k as int),
        decreases hi - k,
    {
        v.push(data[k]);
        assert(data@.subrange(lo as int, k as int + 1) == data@.subrange(lo as int, k as int).push(
            data@[k as int],
        ));
        k = k + 1;
    }
    v
}

/// The length of the start code at `i` (see `start_code_len`).
fn start_code_at(data: &[u8], i: usize) -> (n: usize)
    requires
        i < data@.len(),
    ensures
        n == start_code_len(data@, i as int),
{
    let rest = data.len() - i;
    if rest > 3 && data[i] == 0 && data[i + 1] == 0 && data[i + 2] == 0 && data[i + 3] == 1 {
        4
    } else if rest > 2 && data[i] == 0 && data[i + 1] == 0 && data[i + 2] == 1 {
        3
    } else {
        0
    }
}

/// Splits an Annex B buffer into its NAL units, stamping each with
/// `timestamp_us`.
///
/// Bytes before the first start code are skipped; a start code at the very
/// end, with no header byte after it, ends the scan; units whose type this
/// stream never carries are dropped.
pub fn parse_nal_units_from_buffer(data: &[u8], timestamp_us: u64) -> (units: Vec<NALUnit>)
    ensures
        units@.map_values(|u: NALUnit| u@) == stamped_units(data@, timestamp_us),
{
    let ghost d = data@;
    let ghost stamp = |u: (NALUnitType, Seq<u8>)| (u.0, u.1, timestamp_us);
    let mut units: Vec<NALUnit> = Vec::new();
    let mut i: usize = 0;
    while i < data.len()
        invariant
            d == data@,
            i <= d.len(),
            stamp == (|u: (NALUnitType, Seq<u8>)| (u.0, u.1, timestamp_us)),
            units@.map_values(|u: NALUnit| u@) + annexb_units(d, i as int).map_values(stamp)
                == annexb_units(d, 0).map_values(stamp),
        decreases d.len() - i,
    {
        let ghost before = units@.map_values(|u: NALUnit| u@);
        let sc = start_code_at(data, i);
        if sc == 0 {
            assert(annexb_units(d, i as int) == annexb_units(d, i as int + 1));
            i = i + 1;
        } else {
            let h = i + sc;
            if h >= data.len() {
                assert(annexb_units(d, i as int) == Seq::<(NALUnitType, Seq<u8>)>::empty());
                assert(before + Seq::<(NALUnitType, Seq<u8>)>::empty().map_values(stamp) == before);
                i = data.len();
                assert(annexb_units(d, i as int) == Seq::<(NALUnitType, Seq<u8>)>::empty());
            } else {
                // find the next start code after the header byte
                let mut next = data.len();
                let mut j: usize = h + 1;
                while j < data.len()
                    invariant_except_break
                        next == d.len(),
                    invariant
                        d == data@,
                        h < d.len(),
                        h + 1 <= j <= d.len(),
                        forall|k: int| h + 1 <= k < j ==> start_code_len(d, k) == 0,
                    ensures
                        h + 1 <= next <= d.len(),
                        forall|k: int| h + 1 <= k < next ==> start_code_len(d, k) == 0,
                        next == d.len() || start_code_len(d, next as int) > 0,
                    decreases d.len() - j,
                {
                    if start_code_at(data, j) > 0 {
                        next = j;
                        break;
                    }
                    j = j + 1;
                }
                proof {
                    lemma_next_start_is(d, h as int + 1, next as int);
                }
                let nal_type = NALUnitType::from_header(data[h]);
                let ghost rest = annexb_units(d, next as int).map_values(stamp);
                match nal_type {
                    Some(unit_type) => {
                        let bytes = copy_range(data, i, next);
                        units.push(NALUnit { unit_type, data: bytes, timestamp_us });
                        proof {
                            let u = (unit_type, d.subrange(i as int, next as int));
                            assert(annexb_units(d, i as int) == seq![u] + annexb_units(d, next as int));
                            assert((seq![u] + annexb_units(d, next as int)).map_values(stamp) == seq![
                                stamp(u),
                            ] + rest);
                            assert(units@.map_values(|u: NALUnit| u@) == before.push(stamp(u)));
                            assert(before.push(stamp(u)) + rest == before + (seq![stamp(u)] + rest));
                        }
                    },
                    None => {
                        assert(annexb_units(d, i as int) == annexb_units(d, next as int));
                    },
                }
                i = next;
            }
        }
    }
    assert(annexb_units(d, i as int) == Seq::<(NALUnitType, Seq<u8>)>::empty());
    assert(units@.map_values(|u: NALUnit| u@) + Seq::<(NALUnitType, Seq<u8>, u64)>::empty()
        == units@.map_values(|u: NALUnit| u@));
    units
}

// ── Choosing the encoder ────────────────────────────────────────────────────

/// The code of `c` after ASCII lower-casing (`char::to_ascii_lowercase`):
/// `A`..`Z` move to `a`..`z`, every other character stays.
pub open spec fn ascii_lower_code(c: char) -> u32 {
    if 65 <= (c as u32) <= 90 {
        ((c as u32) + 32) as u32
    } else {
        c as u32
    }
}

/// The codes of `nvidia`.
pub open spec fn nvidia_codes() -> Seq<u32> {
    seq![110u32, 118u32, 105u32, 100u32, 105u32, 97u32]
}

/// Whether the ASCII-lower-cased `name` holds `nvidia` at position `i`.
pub open spec fn nvidia_at(name: Seq<char>, i: int) -> bool {
    &&& 0 <= i
    &&& i + 6 <= name.len()
    &&& forall|t: int| 0 <= t < 6 ==> ascii_lower_code(#[trigger] name[i + t]) == nvidia_codes()[t]
}

/// Whether an encoder's friendly name, ASCII-lower-cased, contains `nvidia`.
pub open spec fn names_nvidia(name: Seq<char>) -> bool {
    exists|i: int| nvidia_at(name, i)
}

fn lower_code(c: char) -> (r: u32)
    ensures
        r == ascii_lower_code(c),
{
    let v = c as u32;
    if 65 <= v && v <= 90 {
        v + 32
    } else {
        v
    }
}

fn nvidia_at_exec(name: &[char], i: usize) -> (b: bool)
    requires
        i + 6 <= name@.len(),
    ensures
        b == nvidia_at(name@, i as int),
{
    let needle: [u32; 6] = [110, 118, 105, 100, 105, 97];
    assert(needle@ == nvidia_codes());
    let n = name.len();
    let mut t: usize = 0;
    while t < 6
        invariant
            t <= 6,
            n == name@.len(),
            i + 6 <= name@.len(),
            needle@ == nvidia_codes(),
            forall|s: int| 0 <= s < t ==> ascii_lower_code(#[trigger] name@[i + s]) == nvidia_codes()[s],
        decreases 6 - t,
    {
        if lower_code(name[i + t]) != needle[t] {
            return false;
        }
        t = t + 1;
    }
    true
}

/// Whether an encoder's friendly name, ASCII-lower-cased, contains
/// `nvidia`.
pub fn is_nvidia_encoder(name: &str) -> (b: bool)
    ensures
        b == names_nvidia(name@),
{
    let cs = chars_of(name);
    if cs.len() < 6 {
        return false;
    }
    let n = cs.len();
    let last = n - 6;
    let mut i: usize = 0;
    while i <= last
        invariant
            n == cs@.len(),
            cs@ == name@,
            last + 6 == cs@.len(),
            forall|j: int| 0 <= j < i ==> !nvidia_at(name@, j),
        decreases last + 1 - i,
    {
        if nvidia_at_exec(cs.as_slice(), i) {
            return true;
        }
        i = i + 1;
    }
    false
}

/// The index of the encoder to use among those the system lists, by
/// friendly name: the first whose name mentions NVIDIA, or `None` when
/// none does.
pub fn select_encoder(names: &Vec<String>) -> (r: Option<usize>)
    ensures
        match r {
            Some(i) => {
                &&& i < names@.len()
                &&& names_nvidia(names@[i as int]@)
                &&& forall|j: int| 0 <= j < i ==> !names_nvidia(#[trigger] names@[j]@)
            },
            None => forall|j: int| 0 <= j < names@.len() ==> !names_nvidia(#[trigger] names@[j]@),
        },
{
    let mut i: usize = 0;
    while i < names.len()
        invariant
            i <= names@.len(),
            forall|j: int| 0 <= j < i ==> !names_nvidia(#[trigger] names@[j]@),
        decreases names@.len() - i,
    {
        if is_nvidia_encoder(names[i].as_str()) {
            return Some(i);
        }
        i = i + 1;
    }
    None
}

} // verus!
