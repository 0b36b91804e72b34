//! Numbers in text: decimal and hexadecimal.

use vstd::prelude::*;
use crate::text::{self, chars_of};

verus! {

/// The character of a decimal digit.
pub open spec fn digit(d: nat) -> char {
    (('0' as u32 + d) as u32) as char
}

/// The decimal digits of `n`, without leading zeros.
pub open spec fn decimal(n: nat) -> Seq<char>
    decreases n,
{
    if n < 10 {
        seq![digit(n)]
    } else {
        decimal(n / 10).push(digit(n % 10))
    }
}

/// The decimal digits of `n`, with a minus sign before them when it is negative.
pub open spec fn signed_decimal(n: int) -> Seq<char> {
    if n < 0 {
        seq!['-'] + decimal((-n) as nat)
    } else {
        decimal(n as nat)
    }
}

/// The value of a string of decimal digits.
pub open spec fn digits_value(s: Seq<char>) -> nat
    decreases s.len(),
{
    if s.len() == 0 {
        0
    } else {
        digits_value(s.drop_last()) * 10 + (s.last() as u32 - '0' as u32) as nat
    }
}

/// True when `s` is not empty and holds decimal digits only.
pub open spec fn all_digits(s: Seq<char>) -> bool {
    s.len() > 0 && forall|i: int| 0 <= i < s.len() ==> text::is_digit(#[trigger] s[i])
}

/// The integer that `s` writes: digits, with at most one sign before them.
pub open spec fn integer_value(s: Seq<char>) -> Option<int> {
    if s.len() > 0 && (s[0] == '+' || s[0] == '-') {
        let rest = s.drop_first();
        if !all_digits(rest) {
            None
        } else if s[0] == '-' {
            Some(-(digits_value(rest) as int))
        } else {
            Some(digits_value(rest) as int)
        }
    } else if all_digits(s) {
        Some(digits_value(s) as int)
    } else {
        None
    }
}

/// The integer that `s` writes, when it fits in 64 bits.
pub open spec fn i64_value(s: Seq<char>) -> Option<i64> {
    match integer_value(s) {
        Some(v) => if i64::MIN <= v <= i64::MAX {
            Some(v as i64)
        } else {
            None
        },
        None => None,
    }
}

/// Append the decimal digits of `n` to `out`.
pub fn push_decimal(out: &mut String, n: u64)
    ensures
        final(out)@ == old(out)@ + decimal(n as nat),
    decreases n,
{
    if n >= 10 {
        push_decimal(out, n / 10);
    }
    let d: u8 = (n % 10) as u8;
    out.push((48 + d) as char);
    assert(out@ =~= old(out)@ + decimal(n as nat));
}

/// The decimal digits of `n`.
pub fn decimal_of(n: u64) -> (r: String)
    ensures
        r@ == decimal(n as nat),
{
    let mut out = String::new();
    push_decimal(&mut out, n);
    assert(out@ =~= decimal(n as nat));
    out
}

/// The decimal digits of `n`, with a minus sign when it is negative.
pub fn signed_decimal_of(n: i64) -> (r: String)
    ensures
        r@ == signed_decimal(n as int),
{
    let mut out = String::new();
    if n < 0 {
        out.push('-');
        let magnitude: u64 = (-(n + 1)) as u64 + 1;
        push_decimal(&mut out, magnitude);
        assert(out@ =~= signed_decimal(n as int));
    } else {
        push_decimal(&mut out, n as u64);
        assert(out@ =~= signed_decimal(n as int));
    }
    out
}

/// A longer string of digits has no smaller value than its start.
proof fn lemma_digits_monotone(s: Seq<char>, n: int)
    requires
        0 <= n <= s.len(),
        forall|i: int| 0 <= i < s.len() ==> text::is_digit(#[trigger] s[i]),
    ensures
        digits_value(s.take(n)) <= digits_value(s),
    decreases s.len() - n,
{
    if n == s.len() {
        assert(s.take(n) =~= s);
    } else {
        assert(s.drop_last().take(n) =~= s.take(n));
        lemma_digits_monotone(s.drop_last(), n);
    }
}

/// Above every 64-bit value, and small enough to be multiplied by ten.
const DIGITS_CAP: u128 = 0x1_0000_0000_0000_0000;

/// The value of the digits `v[from..]`, when it is below 2^64.
fn digits_of(v: &Vec<char>, from: usize) -> (r: Option<u128>)
    requires
        from <= v@.len(),
    ensures
        r matches Some(n) ==> all_digits(v@.skip(from as int)) && n as nat == digits_value(
            v@.skip(from as int),
        ),
        r is None ==> !all_digits(v@.skip(from as int)) || digits_value(v@.skip(from as int))
            >= DIGITS_CAP,
{
    let ghost rest = v@.skip(from as int);
    if from == v.len() {
        return None;
    }
    let mut i: usize = from;
    let mut value: u128 = 0;
    let mut fits: bool = true;
    while i < v.len()
        invariant
            from <= i <= v.len(),
            rest == v@.skip(from as int),
            forall|j: int| 0 <= j < i - from ==> text::is_digit(#[trigger] rest[j]),
            fits ==> value as nat == digits_value(rest.take(i - from)) && value < DIGITS_CAP,
            !fits ==> digits_value(rest.take(i - from)) >= DIGITS_CAP,
        decreases v.len() - i,
    {
        let c: char = v[i];
        assert(rest[i - from] == c);
        if !text::digit_char(c) {
            return None;
        }
        proof {
            let next = rest.take(i - from + 1);
            assert(next.drop_last() =~= rest.take(i - from));
            assert(next.last() == c);
        }
        if fits {
            value = value * 10 + (c as u32 - 48) as u128;
            if value >= DIGITS_CAP {
                fits = false;
            }
        }
        i = i + 1;
    }
    assert(rest.take(i - from) =~= rest);
    if fits {
        Some(value)
    } else {
        None
    }
}

/// Read a 64-bit integer in decimal.
pub fn parse_i64(s: &str) -> (r: Option<i64>)
    ensures
        r == i64_value(s@),
{
    let v = chars_of(s);
    if v.len() == 0 {
        return None;
    }
    let sign: char = v[0];
    assert(s@.skip(0) =~= s@);
    assert(s@.skip(1) =~= s@.drop_first());
    if sign == '-' {
        match digits_of(&v, 1) {
            Some(n) => if n <= 0x8000_0000_0000_0000 {
                Some((-(n as i128)) as i64)
            } else {
                None
            },
            None => None,
        }
    } else {
        let from: usize = if sign == '+' {
            1
        } else {
            0
        };
        match digits_of(&v, from) {
            Some(n) => if n <= 0x7fff_ffff_ffff_ffff {
                Some(n as i64)
            } else {
                None
            },
            None => None,
        }
    }
}

// ---------------------------------------------------------------------------
// Hexadecimal

/// The value of a hexadecimal digit of either case.
pub open spec fn hex_value(c: u8) -> Option<u8> {
    if 0x30 <= c <= 0x39 {
        Some((c - 0x30) as u8)
    } else if 0x61 <= c <= 0x66 {
        Some((c - 0x61 + 10) as u8)
    } else if 0x41 <= c <= 0x46 {
        Some((c - 0x41 + 10) as u8)
    } else {
        None
    }
}

/// The hexadecimal digit of `d`, in small letters.
pub open spec fn small_hex(d: u8) -> char {
    if d < 10 {
        ((0x30 + d) as u8) as char
    } else {
        ((0x57 + d) as u8) as char
    }
}

/// The hexadecimal digit of `d`, in capitals.
pub open spec fn capital_hex(d: u8) -> char {
    if d < 10 {
        ((0x30 + d) as u8) as char
    } else {
        ((0x37 + d) as u8) as char
    }
}

/// Two small hexadecimal digits for each byte.
pub open spec fn to_hex(bytes: Seq<u8>) -> Seq<char>
    decreases bytes.len(),
{
    if bytes.len() == 0 {
        Seq::empty()
    } else {
        to_hex(bytes.drop_last()) + seq![
            small_hex((bytes.last() / 16) as u8),
            small_hex((bytes.last() % 16) as u8),
        ]
    }
}

/// The value of a hexadecimal digit.
pub fn hex(c: u8) -> (r: Option<u8>)
    ensures
        r == hex_value(c),
{
    if 0x30 <= c && c <= 0x39 {
        Some(c - 0x30)
    } else if 0x61 <= c && c <= 0x66 {
        Some(c - 0x61 + 10)
    } else if 0x41 <= c && c <= 0x46 {
        Some(c - 0x41 + 10)
    } else {
        None
    }
}

/// The small hexadecimal digit of `d`.
pub fn small_hex_digit(d: u8) -> (r: char)
    requires
        d < 16,
    ensures
        r == small_hex(d),
{
    if d < 10 {
        (0x30 + d) as char
    } else {
        (0x57 + d) as char
    }
}

/// The capital hexadecimal digit of `d`.
pub fn capital_hex_digit(d: u8) -> (r: char)
    requires
        d < 16,
    ensures
        r == capital_hex(d),
{
    if d < 10 {
        (0x30 + d) as char
    } else {
        (0x37 + d) as char
    }
}

/// Write bytes in hexadecimal.
pub fn bytes_to_hex(bytes: &[u8]) -> (r: String)
    ensures
        r@ == to_hex(bytes@),
{
    let mut out = String::new();
    let mut i: usize = 0;
    while i < bytes.len()
        invariant
            i <= bytes.len(),
            out@ == to_hex(bytes@.take(i as int)),
        decreases bytes.len() - i,
    {
        let b: u8 = bytes[i];
        let ghost before = out@;
        out.push(small_hex_digit(b / 16));
        out.push(small_hex_digit(b % 16));
        proof {
            let next = bytes@.take(i + 1);
            assert(next.drop_last() =~= bytes@.take(i as int));
            assert(out@ =~= before + seq![small_hex((b / 16) as u8), small_hex((b % 16) as u8)]);
        }
        i = i + 1;
    }
    assert(bytes@.take(i as int) =~= bytes@);
    out
}

}
