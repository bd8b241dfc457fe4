//! Integer parsing with the rules of std's `from_str_radix`: an optional
//! sign (`+`, or `-` for signed results), then at least one digit of the
//! radix (letters in either case), and a value in range.

use vstd::prelude::*;

verus! {

/// The value of a digit character in `radix` (2 to 36), if it is one.
pub open spec fn digit_value(c: char, radix: nat) -> Option<nat> {
    let v: int = if '0' <= c <= '9' {
        c as int - '0' as int
    } else if 'a' <= c <= 'z' {
        c as int - 'a' as int + 10
    } else if 'A' <= c <= 'Z' {
        c as int - 'A' as int + 10
    } else {
        99
    };
    if v < radix {
        Some(v as nat)
    } else {
        None
    }
}

/// The value of a run of digits (0 for the empty run), if all are digits.
pub open spec fn digits_value(s: Seq<char>, radix: nat) -> Option<nat>
    decreases s.len(),
{
    if s.len() == 0 {
        Some(0)
    } else {
        match (digits_value(s.drop_last(), radix), digit_value(s.last(), radix)) {
            (Some(v), Some(d)) => Some(v * radix + d),
            _ => None,
        }
    }
}

/// The magnitude a string stands for after an optional `+` sign.
pub open spec fn unsigned_value(s: Seq<char>, radix: nat) -> Option<nat> {
    let body = if s.len() > 0 && s[0] == '+' {
        s.drop_first()
    } else {
        s
    };
    if body.len() == 0 {
        None
    } else {
        digits_value(body, radix)
    }
}

/// The value a string stands for with an optional `+` or `-` sign.
pub open spec fn signed_value(s: Seq<char>, radix: nat) -> Option<int> {
    if s.len() > 0 && s[0] == '-' {
        let body = s.drop_first();
        if body.len() == 0 {
            None
        } else {
            match digits_value(body, radix) {
                Some(v) => Some(-v),
                None => None,
            }
        }
    } else {
        match unsigned_value(s, radix) {
            Some(v) => Some(v as int),
            None => None,
        }
    }
}

/// The digit value of `c` in `radix`.
fn digit_of(c: char, radix: u32) -> (r: Option<u32>)
    requires
        2 <= radix <= 36,
    ensures
        match r {
            Some(d) => digit_value(c, radix as nat) == Some(d as nat),
            None => digit_value(c, radix as nat) is None,
        },
{
    let v: u32 = if '0' <= c && c <= '9' {
        (c as u32) - ('0' as u32)
    } else if 'a' <= c && c <= 'z' {
        (c as u32) - ('a' as u32) + 10
    } else if 'A' <= c && c <= 'Z' {
        (c as u32) - ('A' as u32) + 10
    } else {
        99
    };
    if v < radix {
        Some(v)
    } else {
        None
    }
}

/// The value of the digits `s[lo..]` in `radix`, when they are all digits
/// and the value fits in a `u64`.
fn digits_u64(s: &[char], lo: usize, radix: u32) -> (r: Option<u64>)
    requires
        2 <= radix <= 36,
        lo <= s@.len(),
    ensures
        match r {
            Some(v) => digits_value(s@.skip(lo as int), radix as nat) == Some(v as nat),
            None => match digits_value(s@.skip(lo as int), radix as nat) {
                Some(v) => v > u64::MAX,
                None => true,
            },
        },
{
    let mut acc: u64 = 0;
    let mut i: usize = lo;
    assert(s@.skip(lo as int).take(0) == Seq::<char>::empty());
    while i < s.len()
        invariant
            2 <= radix <= 36,
            lo <= i <= s@.len(),
            digits_value(s@.skip(lo as int).take(i - lo), radix as nat) == Some(acc as nat),
        decreases s@.len() - i,
    {
        let ghost t = s@.skip(lo as int);
        assert(t.take(i - lo + 1).drop_last() == t.take(i - lo));
        assert(t.take(i - lo + 1).last() == s@[i as int]);
        match digit_of(s[i], radix) {
            Some(d) => {
                match acc.checked_mul(radix as u64) {
                    Some(m) => match m.checked_add(d as u64) {
                        Some(n) => {
                            acc = n;
                        },
                        None => {
                            proof {
                                lemma_digits_value_grows(t, radix as nat, i - lo + 1);
                            }
                            return None;
                        },
                    },
                    None => {
                        proof {
                            lemma_digits_value_grows(t, radix as nat, i - lo + 1);
                        }
                        return None;
                    },
                }
            },
            None => {
                proof {
                    lemma_digits_value_none(t, radix as nat, i - lo + 1);
                }
                return None;
            },
        }
        i = i + 1;
    }
    assert(s@.skip(lo as int).take(s@.len() - lo) == s@.skip(lo as int));
    Some(acc)
}

/// A prefix with no value gives none to the whole.
proof fn lemma_digits_value_none(t: Seq<char>, radix: nat, k: int)
    requires
        0 <= k <= t.len(),
        digits_value(t.take(k), radix) is None,
    ensures
        digits_value(t, radix) is None,
    decreases t.len() - k,
{
    if k < t.len() {
        assert(t.take(k + 1).drop_last() == t.take(k));
        lemma_digits_value_none(t, radix, k + 1);
    } else {
        assert(t.take(k) == t);
    }
}

/// Digits only add to the value: a prefix's value is at most the whole's.
proof fn lemma_digits_value_grows(t: Seq<char>, radix: nat, k: int)
    requires
        0 <= k <= t.len(),
        radix >= 2,
    ensures
        match (digits_value(t.take(k), radix), digits_value(t, radix)) {
            (Some(a), Some(b)) => a <= b,
            _ => true,
        },
    decreases t.len() - k,
{
    if k < t.len() {
        assert(t.take(k + 1).drop_last() == t.take(k));
        lemma_digits_value_grows(t, radix, k + 1);
        match (digits_value(t.take(k), radix), digits_value(t.take(k + 1), radix)) {
            (Some(a), Some(c)) => {
                assert(a <= a * radix) by (nonlinear_arith)
                    requires
                        radix >= 2,
                ;
                assert(a <= c);
            },
            (Some(a), None) => {
                lemma_digits_value_none(t, radix, k + 1);
            },
            _ => {},
        }
    } else {
        assert(t.take(k) == t);
    }
}

/// Parses an unsigned 64-bit integer (see `unsigned_value`).
pub fn parse_u64_radix(s: &[char], radix: u32) -> (r: Option<u64>)
    requires
        2 <= radix <= 36,
    ensures
        match r {
            Some(v) => unsigned_value(s@, radix as nat) == Some(v as nat),
            None => match unsigned_value(s@, radix as nat) {
                Some(v) => v > u64::MAX,
                None => true,
            },
        },
{
    let lo: usize = if s.len() > 0 && s[0] == '+' {
        1
    } else {
        0
    };
    assert(s@.skip(lo as int) == if s@.len() > 0 && s@[0] == '+' {
        s@.drop_first()
    } else {
        s@
    });
    if lo >= s.len() {
        return None;
    }
    digits_u64(s, lo, radix)
}

/// Parses an unsigned 32-bit integer (see `unsigned_value`).
pub fn parse_u32_radix(s: &[char], radix: u32) -> (r: Option<u32>)
    requires
        2 <= radix <= 36,
    ensures
        match r {
            Some(v) => unsigned_value(s@, radix as nat) == Some(v as nat),
            None => match unsigned_value(s@, radix as nat) {
                Some(v) => v > u32::MAX,
                None => true,
            },
        },
{
    match parse_u64_radix(s, radix) {
        Some(v) => if v <= u32::MAX as u64 {
            Some(v as u32)
        } else {
            None
        },
        None => None,
    }
}

/// Parses a pointer-sized signed integer (see `signed_value`).
pub fn parse_isize_radix(s: &[char], radix: u32) -> (r: Option<isize>)
    requires
        2 <= radix <= 36,
    ensures
        match r {
            Some(v) => signed_value(s@, radix as nat) == Some(v as int),
            None => match signed_value(s@, radix as nat) {
                Some(v) => v < isize::MIN || v > isize::MAX,
                None => true,
            },
        },
{
    if s.len() > 0 && s[0] == '-' {
        if s.len() == 1 {
            return None;
        }
        assert(s@.skip(1) == s@.drop_first());
        match digits_u64(s, 1, radix) {
            Some(v) => {
                if v <= isize::MAX as u64 {
                    Some(-(v as isize))
                } else if v == (isize::MAX as u64) + 1 {
                    Some(isize::MIN)
                } else {
                    None
                }
            },
            None => None,
        }
    } else {
        match parse_u64_radix(s, radix) {
            Some(v) => if v <= isize::MAX as u64 {
                Some(v as isize)
            } else {
                None
            },
            None => None,
        }
    }
}

} // verus!
