//! Number formatting used in identifiers, command lines and JSON lines:
//! decimal, and hexadecimal in either letter case.

use vstd::prelude::*;

use crate::text::string_push;

verus! {

broadcast use vstd::seq_lib::group_seq_properties;

/// The ASCII code of the digit `d` (0–15) in the given letter case.
pub open spec fn digit_ascii(d: nat, upper: bool) -> u8 {
    if d < 10 {
        (48 + d) as u8
    } else if upper {
        (55 + d) as u8
    } else {
        (87 + d) as u8
    }
}

/// The digits of `n` in base `radix`, most significant first, without
/// leading zeros (`0` has the single digit `0`).
pub open spec fn digits_ascii(n: nat, radix: nat, upper: bool) -> Seq<u8>
    recommends
        radix == 10 || radix == 16,
    decreases n,
{
    if radix < 2 || n < radix {
        seq![digit_ascii(n, upper)]
    } else {
        proof {
            assert(n / radix < n) by (nonlinear_arith)
                requires
                    n >= radix,
                    radix >= 2,
            ;
        }
        digits_ascii(n / radix, radix, upper).push(digit_ascii(n % radix, upper))
    }
}

/// Decimal digits of `n`.
pub open spec fn decimal_ascii(n: nat) -> Seq<u8> {
    digits_ascii(n, 10, false)
}

/// Hexadecimal digits of `n`.
pub open spec fn hex_ascii(n: nat, upper: bool) -> Seq<u8> {
    digits_ascii(n, 16, upper)
}

/// `s` preceded by as many `'0'` as needed to reach `width` characters.
pub open spec fn zero_pad(s: Seq<u8>, width: nat) -> Seq<u8> {
    if s.len() >= width {
        s
    } else {
        Seq::new((width - s.len()) as nat, |i: int| 48u8) + s
    }
}

/// Characters of an ASCII byte sequence.
pub open spec fn ascii_chars(s: Seq<u8>) -> Seq<char> {
    s.map_values(|b: u8| b as char)
}

fn digit_byte(d: u64, upper: bool) -> (b: u8)
    requires
        d < 16,
    ensures
        b == digit_ascii(d as nat, upper),
{
    if d < 10 {
        48 + d as u8
    } else if upper {
        55 + d as u8
    } else {
        87 + d as u8
    }
}

/// Appends the digits of `n` in base `radix` (10 or 16).
pub fn push_digits(out: &mut Vec<u8>, n: u64, radix: u64, upper: bool)
    requires
        radix == 10 || radix == 16,
    ensures
        final(out)@ == old(out)@ + digits_ascii(n as nat, radix as nat, upper),
    decreases n,
{
    if n >= radix {
        push_digits(out, n / radix, radix, upper);
    }
    let d = digit_byte(n % radix, upper);
    out.push(d);
}

/// Appends the decimal digits of `n`.
pub fn push_decimal(out: &mut Vec<u8>, n: u64)
    ensures
        final(out)@ == old(out)@ + decimal_ascii(n as nat),
{
    push_digits(out, n, 10, false);
}

proof fn lemma_digits_ascii_bytes(n: nat, radix: nat, upper: bool)
    requires
        radix == 10 || radix == 16,
    ensures
        forall|i: int|
            0 <= i < digits_ascii(n, radix, upper).len() ==> #[trigger] digits_ascii(
                n,
                radix,
                upper,
            )[i] < 128,
        digits_ascii(n, radix, upper).len() >= 1,
    decreases n,
{
    if n >= radix {
        lemma_digits_ascii_bytes(n / radix, radix, upper);
    }
}

/// A string of ASCII bytes, one character per byte.
pub fn ascii_string(bytes: &[u8]) -> (s: String)
    requires
        forall|i: int| 0 <= i < bytes@.len() ==> #[trigger] bytes@[i] < 128,
    ensures
        s@ == ascii_chars(bytes@),
{
    let mut s = String::new();
    let mut i: usize = 0;
    while i < bytes.len()
        invariant
            i <= bytes@.len(),
            s@ == ascii_chars(bytes@.take(i as int)),
        decreases bytes@.len() - i,
    {
        string_push(&mut s, bytes[i] as char);
        assert(ascii_chars(bytes@.take(i as int + 1)) == ascii_chars(bytes@.take(i as int)).push(
            bytes@[i as int] as char,
        ));
        i = i + 1;
    }
    assert(bytes@.take(bytes@.len() as int) == bytes@);
    s
}

/// The decimal text of `n`.
pub fn decimal_string(n: u64) -> (s: String)
    ensures
        s@ == ascii_chars(decimal_ascii(n as nat)),
{
    let mut digits: Vec<u8> = Vec::new();
    push_decimal(&mut digits, n);
    proof {
        lemma_digits_ascii_bytes(n as nat, 10, false);
        assert(digits@ == decimal_ascii(n as nat));
    }
    ascii_string(digits.as_slice())
}

/// A window handle as the server names it: `0x` followed by upper-case
/// hexadecimal digits without padding (e.g. `0x1A2B3C`).
pub fn format_hwnd(hwnd: usize) -> (s: String)
    ensures
        s@ == seq!['0', 'x'] + ascii_chars(hex_ascii(hwnd as nat, true)),
{
    let mut bytes: Vec<u8> = Vec::new();
    bytes.push(48);
    bytes.push(120);
    push_digits(&mut bytes, hwnd as u64, 16, true);
    proof {
        lemma_digits_ascii_bytes(hwnd as nat, 16, true);
        let h = hex_ascii(hwnd as nat, true);
        assert(bytes@ == seq![48u8, 120u8] + h);
        assert forall|i: int| 0 <= i < bytes@.len() implies #[trigger] bytes@[i] < 128 by {
            if i >= 2 {
                assert(bytes@[i] == h[i - 2]);
            }
        }
        assert(ascii_chars(seq![48u8, 120u8] + h) == seq!['0', 'x'] + ascii_chars(h));
    }
    ascii_string(bytes.as_slice())
}

/// A short stream identifier: the value as eight lower-case hexadecimal
/// digits, zero-padded (e.g. `0001e240`).
pub fn format_short_id(x: u32) -> (s: String)
    ensures
        s@ == ascii_chars(zero_pad(hex_ascii(x as nat, false), 8)),
{
    let mut digits: Vec<u8> = Vec::new();
    push_digits(&mut digits, x as u64, 16, false);
    proof {
        lemma_digits_ascii_bytes(x as nat, 16, false);
    }
    let mut bytes: Vec<u8> = Vec::new();
    let mut k: usize = digits.len();
    while k < 8
        invariant
            digits@ == hex_ascii(x as nat, false),
            digits@.len() <= k <= 8 || (k == digits@.len() && k >= 8),
            bytes@ == Seq::new((k - digits@.len()) as nat, |i: int| 48u8),
        decreases 8 - k,
    {
        bytes.push(48);
        assert(Seq::new((k + 1 - digits@.len()) as nat, |i: int| 48u8) == Seq::new(
            (k - digits@.len()) as nat,
            |i: int| 48u8,
        ).push(48u8));
        k = k + 1;
    }
    let ghost pad = bytes@;
    let mut i: usize = 0;
    while i < digits.len()
        invariant
            i <= digits@.len(),
            bytes@ == pad + digits@.take(i as int),
        decreases digits@.len() - i,
    {
        bytes.push(digits[i]);
        assert(digits@.take(i as int + 1) == digits@.take(i as int).push(digits@[i as int]));
        i = i + 1;
    }
    proof {
        assert(digits@.take(digits@.len() as int) == digits@);
        let h = hex_ascii(x as nat, false);
        assert(bytes@ == zero_pad(h, 8));
        assert forall|j: int| 0 <= j < bytes@.len() implies #[trigger] bytes@[j] < 128 by {
            if j >= pad.len() {
                assert(bytes@[j] == h[j - pad.len()]);
            }
        }
    }
    ascii_string(bytes.as_slice())
}

} // verus!
