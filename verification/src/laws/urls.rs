//! URLs: what is written into a link is what a request reads out of it.

use vstd::prelude::*;
use vstd::utf8::*;
use crate::{html, http, numbers, text};

verus! {

/// A byte's escape, followed by `rest`, stands for the byte followed by what
/// `rest` stands for.
proof fn lemma_decode_escape(b: u8, encode_slash: bool, rest: Seq<u8>)
    ensures
        http::percent_decoded(encode_utf8(html::url_escape(b, encode_slash)) + rest) == seq![b]
            + http::percent_decoded(rest),
{
    let escaped = html::url_escape(b, encode_slash);
    if html::url_plain(b, encode_slash) {
        text::lemma_encode_ascii(b);
        let all = seq![b] + rest;
        assert(all.skip(1) =~= rest);
        assert(http::percent_decoded(all) == seq![b] + http::percent_decoded(rest));
    } else {
        let h = (b / 16) as u8;
        let l = (b % 16) as u8;
        let hc = if h < 10 {
            (0x30 + h) as u8
        } else {
            (0x37 + h) as u8
        };
        let lc = if l < 10 {
            (0x30 + l) as u8
        } else {
            (0x37 + l) as u8
        };
        assert(numbers::capital_hex(h) == hc as char);
        assert(numbers::capital_hex(l) == lc as char);
        let one = seq![0x25u8 as char];
        let two = seq![hc as char];
        let three = seq![lc as char];
        assert('%' == 0x25u8 as char);
        assert(escaped =~= one + two + three);
        text::lemma_encode_append(one + two, three);
        text::lemma_encode_append(one, two);
        text::lemma_encode_ascii(0x25);
        text::lemma_encode_ascii(hc);
        text::lemma_encode_ascii(lc);
        let bytes = seq![0x25u8] + seq![hc] + seq![lc];
        assert(encode_utf8(escaped) == bytes);
        let all = bytes + rest;
        assert(all[0] == 0x25);
        assert(all[1] == hc);
        assert(all[2] == lc);
        assert(numbers::hex_value(hc) == Some(h));
        assert(numbers::hex_value(lc) == Some(l));
        assert(all.skip(3) =~= rest);
        assert(h * 16 + l == b);
    }
}

/// Escaping byte by byte can start at either end.
proof fn lemma_escaped_first(bytes: Seq<u8>, encode_slash: bool)
    requires
        bytes.len() > 0,
    ensures
        html::url_escaped(bytes, encode_slash) == html::url_escape(bytes[0], encode_slash)
            + html::url_escaped(bytes.drop_first(), encode_slash),
    decreases bytes.len(),
{
    let first = html::url_escape(bytes[0], encode_slash);
    if bytes.len() == 1 {
        assert(bytes.drop_last() =~= Seq::empty());
        assert(bytes.drop_first() =~= Seq::empty());
        assert(html::url_escaped(bytes.drop_last(), encode_slash) =~= Seq::empty());
        assert(html::url_escaped(bytes, encode_slash) =~= first);
        assert(first + html::url_escaped(bytes.drop_first(), encode_slash) =~= first);
    } else {
        lemma_escaped_first(bytes.drop_last(), encode_slash);
        assert(bytes.drop_last().drop_first() =~= bytes.drop_first().drop_last());
        assert(html::url_escaped(bytes, encode_slash) =~= first + (html::url_escaped(
            bytes.drop_first().drop_last(),
            encode_slash,
        ) + html::url_escape(bytes.last(), encode_slash)));
    }
}

/// Percent-decoding gives back the bytes that were percent-encoded.
pub proof fn law_percent_round_trip(bytes: Seq<u8>, encode_slash: bool)
    ensures
        http::percent_decoded(encode_utf8(html::url_escaped(bytes, encode_slash))) == bytes,
    decreases bytes.len(),
{
    if bytes.len() == 0 {
        assert(http::percent_decoded(encode_utf8(Seq::empty())) =~= bytes);
    } else {
        let rest = bytes.drop_first();
        lemma_escaped_first(bytes, encode_slash);
        text::lemma_encode_append(
            html::url_escape(bytes[0], encode_slash),
            html::url_escaped(rest, encode_slash),
        );
        lemma_decode_escape(
            bytes[0],
            encode_slash,
            encode_utf8(html::url_escaped(rest, encode_slash)),
        );
        law_percent_round_trip(rest, encode_slash);
        assert(seq![bytes[0]] + rest =~= bytes);
    }
}

/// Decoding gives back the text that was encoded for a URL's path.
pub proof fn law_path_round_trip(s: Seq<char>)
    ensures
        http::url_decoded(html::path_encoded(s)) == s,
{
    law_percent_round_trip(encode_utf8(s), false);
    encode_utf8_valid_utf8(s);
    encode_utf8_decode_utf8(s);
}

/// Decoding gives back the text that was encoded for a URL's query.
pub proof fn law_query_round_trip(s: Seq<char>)
    ensures
        http::url_decoded(html::query_encoded(s)) == s,
{
    law_percent_round_trip(encode_utf8(s), true);
    encode_utf8_valid_utf8(s);
    encode_utf8_decode_utf8(s);
}

/// True for a character that a URL may hold as it is: none of them ends a path, a
/// query value or an attribute.
pub open spec fn url_char(c: char) -> bool {
    text::is_alphanumeric(c) || c == '-' || c == '_' || c == '.' || c == '~' || c == '%' || c
        == '/'
}

/// What is encoded for a URL holds letters, digits and `- _ . ~ % /` only, and in
/// a query no slash.
pub proof fn law_encoded_is_plain(s: Seq<char>, i: int)
    ensures
        0 <= i < html::path_encoded(s).len() ==> url_char(html::path_encoded(s)[i]),
        0 <= i < html::query_encoded(s).len() ==> url_char(html::query_encoded(s)[i])
            && html::query_encoded(s)[i] != '/',
{
    lemma_escaped_plain(encode_utf8(s), false, i);
    lemma_escaped_plain(encode_utf8(s), true, i);
}

proof fn lemma_escaped_plain(bytes: Seq<u8>, encode_slash: bool, i: int)
    ensures
        0 <= i < html::url_escaped(bytes, encode_slash).len() ==> url_char(
            html::url_escaped(bytes, encode_slash)[i],
        ) && (encode_slash ==> html::url_escaped(bytes, encode_slash)[i] != '/'),
    decreases bytes.len(),
{
    if bytes.len() > 0 {
        lemma_escaped_plain(bytes.drop_last(), encode_slash, i);
    }
}

/// The byte of a hexadecimal digit, in either case.
pub open spec fn is_digit_of(b: u8, value: int) -> bool {
    ||| 0 <= value < 10 && b == 0x30 + value
    ||| 10 <= value < 16 && b == 0x57 + value
    ||| 10 <= value < 16 && b == 0x37 + value
}

/// True for the byte of a hexadecimal digit.
pub open spec fn is_digit(b: u8) -> bool {
    0x30 <= b <= 0x39 || 0x41 <= b <= 0x46 || 0x61 <= b <= 0x66
}

/// Decoding reads a percent sign with two digits as the byte that they make, a plus
/// sign as a space, and every other byte as itself.
pub proof fn law_bytes_are_decoded(
    b: u8,
    high: u8,
    low: u8,
    x: int,
    y: int,
    rest: Seq<u8>,
)
    ensures
        http::percent_decoded(Seq::empty()) == Seq::<u8>::empty(),
        b != 0x25 && b != 0x2b ==> http::percent_decoded(seq![b] + rest) == seq![b]
            + http::percent_decoded(rest),
        http::percent_decoded(seq![0x2bu8] + rest) == seq![0x20u8] + http::percent_decoded(rest),
        is_digit_of(high, x) && is_digit_of(low, y) ==> http::percent_decoded(
            seq![0x25u8, high, low] + rest,
        ) == seq![(16 * x + y) as u8] + http::percent_decoded(rest),
        rest.len() < 2 || !is_digit(rest[0]) || !is_digit(rest[1]) ==> http::percent_decoded(
            seq![0x25u8] + rest,
        ) == seq![0x25u8] + http::percent_decoded(rest),
{
    assert((seq![b] + rest).skip(1) =~= rest);
    assert((seq![0x2bu8] + rest).skip(1) =~= rest);
    let escape = seq![0x25u8, high, low] + rest;
    assert(escape[0] == 0x25 && escape[1] == high && escape[2] == low);
    assert(escape.skip(3) =~= rest);
    let stray = seq![0x25u8] + rest;
    assert(stray.skip(1) =~= rest);
    if rest.len() >= 2 {
        assert(stray[1] == rest[0] && stray[2] == rest[1]);
    }
}

/// True for the bytes of letters, digits and `- _ . ~`.
pub open spec fn is_unreserved(b: u8) -> bool {
    ||| 48 <= b <= 57
    ||| 65 <= b <= 90
    ||| 97 <= b <= 122
    ||| b == 45
    ||| b == 95
    ||| b == 46
    ||| b == 126
}

/// The capital digit of a number below sixteen.
pub open spec fn capital_digit(n: int) -> u32 {
    if n < 10 {
        (48 + n) as u32
    } else {
        (55 + n) as u32
    }
}

/// In a URL, letters, digits and `- _ . ~` stand for themselves, and in a path so do
/// slashes; any other byte is a percent sign and two capital digits.
pub proof fn law_bytes_are_encoded(bytes: Seq<u8>, b: u8, in_query: bool)
    ensures
        html::url_escaped(Seq::empty(), in_query) == Seq::<char>::empty(),
        is_unreserved(b) || b == 47 && !in_query ==> html::url_escaped(bytes.push(b), in_query)
            == html::url_escaped(bytes, in_query) + seq![b as char],
        !(is_unreserved(b) || b == 47 && !in_query) ==> ({
            let start = html::url_escaped(bytes, in_query);
            let all = html::url_escaped(bytes.push(b), in_query);
            &&& all.len() == start.len() + 3
            &&& all.take(start.len() as int) == start
            &&& all[start.len() as int] == '%'
            &&& all[start.len() as int + 1] as u32 == capital_digit(b as int / 16)
            &&& all[start.len() as int + 2] as u32 == capital_digit(b as int % 16)
        }),
{
    assert(bytes.push(b).drop_last() =~= bytes);
    let start = html::url_escaped(bytes, in_query);
    let all = html::url_escaped(bytes.push(b), in_query);
    assert(all.take(start.len() as int) =~= start);
}

/// What is encoded of a text is its UTF-8 form; slashes are encoded in a query only.
pub proof fn law_texts_are_encoded(s: Seq<char>)
    ensures
        html::path_encoded(s) == html::url_escaped(encode_utf8(s), false),
        html::query_encoded(s) == html::url_escaped(encode_utf8(s), true),
{
}

}
