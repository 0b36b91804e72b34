//! Numbers and ids: what is written is what is read.

use vstd::prelude::*;
use vstd::utf8::*;
use crate::git::bytes::{self, ObjectError};
use crate::git::{idx, refs};
use crate::{numbers, text};

verus! {

// ---------------------------------------------------------------------------
// Hexadecimal ids

/// The character codes of a byte in hexadecimal.
proof fn lemma_hex_pair(b: u8)
    ensures
        ({
            let h = numbers::small_hex((b / 16) as u8);
            let l = numbers::small_hex((b % 16) as u8);
            let pair = encode_utf8(seq![h, l]);
            &&& pair.len() == 2
            &&& idx::pair_value(pair[0], pair[1]) == Some(b)
            &&& text::is_hex_digit(h) && text::is_hex_digit(l)
            &&& text::lower_char(h) == h && text::lower_char(l) == l
        }),
{
    let x = (b / 16) as u8;
    let y = (b % 16) as u8;
    let hb = if x < 10 {
        (0x30 + x) as u8
    } else {
        (0x57 + x) as u8
    };
    let lb = if y < 10 {
        (0x30 + y) as u8
    } else {
        (0x57 + y) as u8
    };
    let h = numbers::small_hex(x);
    let l = numbers::small_hex(y);
    assert(h == hb as char);
    assert(l == lb as char);
    assert(seq![h, l] =~= seq![h] + seq![l]);
    text::lemma_encode_append(seq![h], seq![l]);
    text::lemma_encode_ascii(hb);
    text::lemma_encode_ascii(lb);
    assert(numbers::hex_value(hb) == Some(x));
    assert(numbers::hex_value(lb) == Some(y));
    assert(16 * x + y == b);
}

/// The hexadecimal form of bytes, place by place.
pub proof fn lemma_hex_form(b: Seq<u8>)
    ensures
        numbers::to_hex(b).len() == 2 * b.len(),
        encode_utf8(numbers::to_hex(b)).len() == 2 * b.len(),
        forall|i: int|
            0 <= i < b.len() ==> #[trigger] idx::pair_at(encode_utf8(numbers::to_hex(b)), i)
                == Some(b[i]),
        forall|i: int|
            0 <= i < numbers::to_hex(b).len() ==> text::is_hex_digit(
                #[trigger] numbers::to_hex(b)[i],
            ) && text::lower_char(numbers::to_hex(b)[i]) == numbers::to_hex(b)[i],
    decreases b.len(),
{
    if b.len() > 0 {
        let rest = b.drop_last();
        let last = b.last();
        let h = numbers::small_hex((last / 16) as u8);
        let l = numbers::small_hex((last % 16) as u8);
        let start = numbers::to_hex(rest);
        lemma_hex_form(rest);
        lemma_hex_pair(last);
        text::lemma_encode_append(start, seq![h, l]);
        let e = encode_utf8(numbers::to_hex(b));
        let es = encode_utf8(start);
        let pair = encode_utf8(seq![h, l]);
        assert(e == es + pair);
        assert forall|i: int| 0 <= i < b.len() implies #[trigger] idx::pair_at(e, i) == Some(
            b[i],
        ) by {
            if i < rest.len() {
                assert(e[2 * i] == es[2 * i]);
                assert(e[2 * i + 1] == es[2 * i + 1]);
                assert(idx::pair_at(es, i) == Some(rest[i]));
            } else {
                assert(e[2 * i] == pair[0]);
                assert(e[2 * i + 1] == pair[1]);
            }
        }
    }
}

/// An id that is written in hexadecimal is read back as the same twenty bytes,
/// and is an object id in small letters.
pub proof fn law_hex_id_round_trip(id: Seq<u8>)
    requires
        id.len() == 20,
    ensures
        idx::oid_bytes(numbers::to_hex(id)) == Ok::<Seq<u8>, ObjectError>(id),
        refs::hex_oid(numbers::to_hex(id)),
        text::lower(numbers::to_hex(id)) == numbers::to_hex(id),
{
    lemma_hex_form(id);
    let b = encode_utf8(numbers::to_hex(id));
    assert(Seq::new(20, |i: int| idx::pair_at(b, i)->0) =~= id);
    assert(text::lower(numbers::to_hex(id)) =~= numbers::to_hex(id));
}

// ---------------------------------------------------------------------------
// Decimal numbers

/// A number that is written in decimal is read back as the same number.
pub proof fn law_decimal_round_trip(n: nat)
    ensures
        numbers::digits_value(numbers::decimal(n)) == n,
        numbers::all_digits(numbers::decimal(n)),
    decreases n,
{
    if n < 10 {
        let s = numbers::decimal(n);
        assert(s.drop_last() =~= Seq::empty());
        reveal_with_fuel(numbers::digits_value, 2);
    } else {
        law_decimal_round_trip(n / 10);
        let s = numbers::decimal(n);
        assert(s.drop_last() =~= numbers::decimal(n / 10));
    }
}

/// A signed 64-bit number that is written in decimal is read back as the same
/// number.
pub proof fn law_signed_decimal_round_trip(n: i64)
    ensures
        numbers::i64_value(numbers::signed_decimal(n as int)) == Some(n),
{
    if n < 0 {
        let magnitude = (-(n as int)) as nat;
        law_decimal_round_trip(magnitude);
        let s = numbers::signed_decimal(n as int);
        assert(s.drop_first() =~= numbers::decimal(magnitude));
    } else {
        law_decimal_round_trip(n as nat);
        let s = numbers::signed_decimal(n as int);
        assert(text::is_digit(s[0]));
    }
}

// ---------------------------------------------------------------------------
// Numbers in packs and deltas

/// A number with its low bits first, seven in a byte.
pub open spec fn low_bytes(n: nat) -> Seq<u8>
    decreases n,
{
    if n < 128 {
        seq![n as u8]
    } else {
        seq![(128 + n % 128) as u8] + low_bytes(n / 128)
    }
}

/// A number with its low bits first is read back as the same number, wherever it
/// stands.
pub proof fn law_low_first_round_trip(before: Seq<u8>, n: nat, after: Seq<u8>)
    ensures
        ({
            let data = before + low_bytes(n) + after;
            let pos = before.len() as int;
            &&& bytes::number_len(data, pos) == Some(low_bytes(n).len())
            &&& bytes::low_first(data, pos, low_bytes(n).len()) == n
        }),
    decreases n,
{
    let data = before + low_bytes(n) + after;
    let pos = before.len() as int;
    if n < 128 {
        assert(data[pos] == n as u8);
        reveal_with_fuel(bytes::low_first, 2);
    } else {
        let first = (128 + n % 128) as u8;
        let rest = low_bytes(n / 128);
        let further = before.push(first);
        assert(data =~= further + rest + after);
        assert(data[pos] == first);
        law_low_first_round_trip(further, n / 128, after);
        assert(low_bytes(n).len() == rest.len() + 1);
    }
}

/// The bytes before the last of a number with its high bits first.
pub open spec fn high_start(n: nat) -> Seq<u8>
    decreases n,
{
    if n < 128 {
        seq![(128 + n) as u8]
    } else {
        high_start((n / 128 - 1) as nat).push((128 + n % 128) as u8)
    }
}

/// A number with its high bits first, seven in a byte, where every byte but the
/// last adds one to what is shifted.
pub open spec fn high_bytes(n: nat) -> Seq<u8> {
    if n < 128 {
        seq![n as u8]
    } else {
        high_start((n / 128 - 1) as nat).push((n % 128) as u8)
    }
}

/// The value of a number's start.
proof fn lemma_high_start(before: Seq<u8>, n: nat, after: Seq<u8>)
    ensures
        ({
            let data = before + high_start(n) + after;
            let pos = before.len() as int;
            &&& high_start(n).len() > 0
            &&& bytes::high_first(data, pos, high_start(n).len()) == n
            &&& forall|i: int|
                pos <= i < pos + high_start(n).len() ==> bytes::continues(#[trigger] data[i])
        }),
    decreases n,
{
    let data = before + high_start(n) + after;
    let pos = before.len() as int;
    if n < 128 {
        assert(data[pos] == (128 + n) as u8);
        assert((128 + n) % 128 == n);
    } else {
        let m = (n / 128 - 1) as nat;
        let last = (128 + n % 128) as u8;
        let start = high_start(m);
        let more = seq![last] + after;
        lemma_high_start(before, m, more);
        assert(data =~= before + start + more);
        assert(data[pos + start.len()] == last);
        assert(last % 128 == n % 128);
        assert(high_start(n).len() == start.len() + 1);
        assert((m + 1) * 128 + n % 128 == n);
    }
}

proof fn lemma_number_len_is(data: Seq<u8>, pos: int, n: nat)
    requires
        0 <= pos,
        1 <= n,
        pos + n <= data.len(),
        !bytes::continues(data[pos + n - 1]),
        forall|i: int| pos <= i < pos + n - 1 ==> bytes::continues(#[trigger] data[i]),
    ensures
        bytes::number_len(data, pos) == Some(n),
    decreases n,
{
    if n > 1 {
        assert(bytes::continues(data[pos]));
        lemma_number_len_is(data, pos + 1, (n - 1) as nat);
    }
}

/// A number with its high bits first is read back as the same number, wherever
/// it stands.
pub proof fn law_high_first_round_trip(before: Seq<u8>, n: nat, after: Seq<u8>)
    ensures
        ({
            let data = before + high_bytes(n) + after;
            let pos = before.len() as int;
            &&& bytes::number_len(data, pos) == Some(high_bytes(n).len())
            &&& bytes::high_first(data, pos, high_bytes(n).len()) == n
        }),
{
    let data = before + high_bytes(n) + after;
    let pos = before.len() as int;
    if n < 128 {
        assert(data[pos] == n as u8);
    } else {
        let m = (n / 128 - 1) as nat;
        let last = (n % 128) as u8;
        let start = high_start(m);
        let more = seq![last] + after;
        lemma_high_start(before, m, more);
        assert(data =~= before + start + more);
        assert(data[pos + start.len()] == last);
        assert(high_bytes(n).len() == start.len() + 1);
        lemma_number_len_is(data, pos, high_bytes(n).len());
        assert((m + 1) * 128 + n % 128 == n);
    }
}

}
