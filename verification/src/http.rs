//! Minimal HTTP parsing and response creation.

use vstd::prelude::*;
use vstd::slice::slice_to_vec;
use vstd::utf8::*;
use crate::numbers::{self, decimal_of};
use crate::text::{
    self, decode_lossy, same, split_at_char, split_lines, split_pair, split_words, to_lower,
    trimmed, Class,
};

verus! {

/// A value of the query, by its key.
#[derive(Clone, Debug)]
pub struct QueryPair {
    /// The decoded key.
    pub key: String,
    /// The decoded value.
    pub value: String,
}

/// The query as a map; of pairs with one key the last counts.
pub open spec fn pairs_map(pairs: Seq<QueryPair>) -> Map<Seq<char>, Seq<char>>
    decreases pairs.len(),
{
    if pairs.len() == 0 {
        Map::empty()
    } else {
        pairs_map(pairs.drop_last()).insert(pairs.last().key@, pairs.last().value@)
    }
}

/// Parsed HTTP request fields used by rsgit.
#[derive(Clone, Debug)]
pub struct Request {
    method: String,
    path: String,
    query: Vec<QueryPair>,
    host: Option<String>,
}

/// What a request holds.
#[verifier::ext_equal]
pub struct RequestView {
    /// HTTP method token.
    pub method: Seq<char>,
    /// Decoded URL path.
    pub path: Seq<char>,
    /// Decoded query values.
    pub query: Map<Seq<char>, Seq<char>>,
    /// Parsed Host header.
    pub host: Option<Seq<char>>,
}

impl View for Request {
    type V = RequestView;

    closed spec fn view(&self) -> RequestView {
        RequestView {
            method: self.method@,
            path: self.path@,
            query: pairs_map(self.query@),
            host: match self.host {
                Some(h) => Some(h@),
                None => None,
            },
        }
    }
}

impl Request {
    /// HTTP method token.
    pub fn method(&self) -> (r: &str)
        ensures
            r@ == self@.method,
    {
        self.method.as_str()
    }

    /// Decoded URL path.
    pub fn path(&self) -> (r: &str)
        ensures
            r@ == self@.path,
    {
        self.path.as_str()
    }

    /// Optional query value.
    pub fn query(&self, key: &str) -> (r: Option<&str>)
        ensures
            r is Some <==> self@.query.dom().contains(key@),
            r matches Some(v) ==> v@ == self@.query[key@],
    {
        let mut i: usize = self.query.len();
        assert(self.query@.take(i as int) =~= self.query@);
        while i > 0
            invariant
                i <= self.query@.len(),
                pairs_map(self.query@.take(i as int)).dom().contains(key@)
                    <==> self@.query.dom().contains(key@),
                pairs_map(self.query@.take(i as int)).dom().contains(key@) ==> pairs_map(
                    self.query@.take(i as int),
                )[key@] == self@.query[key@],
            decreases i,
        {
            let ghost here = self.query@.take(i as int);
            assert(here.drop_last() =~= self.query@.take(i - 1));
            assert(here.last() == self.query@[i - 1]);
            if same(self.query[i - 1].key.as_str(), key) {
                return Some(self.query[i - 1].value.as_str());
            }
            i = i - 1;
        }
        None
    }

    /// Parsed Host header.
    pub fn host(&self) -> (r: Option<&str>)
        ensures
            r is Some <==> self@.host is Some,
            r matches Some(h) ==> self@.host == Some(h@),
    {
        match &self.host {
            Some(h) => Some(h.as_str()),
            None => None,
        }
    }
}

// ---------------------------------------------------------------------------
// Percent-decoding

/// True when `b` starts with a percent sign and two hexadecimal digits.
pub open spec fn is_escape(b: Seq<u8>) -> bool {
    &&& b.len() > 2
    &&& b[0] == 0x25
    &&& numbers::hex_value(b[1]) is Some
    &&& numbers::hex_value(b[2]) is Some
}

/// The bytes that `b` stands for in a URL: an escape is one byte, a plus sign is
/// a space, and anything else stands for itself.
pub open spec fn percent_decoded(b: Seq<u8>) -> Seq<u8>
    decreases b.len(),
{
    if b.len() == 0 {
        Seq::empty()
    } else if is_escape(b) {
        seq![(numbers::hex_value(b[1])->0 * 16 + numbers::hex_value(b[2])->0) as u8]
            + percent_decoded(b.skip(3))
    } else if b[0] == 0x2b {
        seq![0x20u8] + percent_decoded(b.skip(1))
    } else {
        seq![b[0]] + percent_decoded(b.skip(1))
    }
}

/// The text that `s` stands for in a URL.
pub open spec fn url_decoded(s: Seq<char>) -> Seq<char> {
    text::lossy(percent_decoded(encode_utf8(s)))
}

/// The bytes that `bytes` stands for in a URL.
pub fn percent_decode(bytes: &[u8]) -> (r: Vec<u8>)
    ensures
        r@ == percent_decoded(bytes@),
{
    let mut out: Vec<u8> = Vec::new();
    let mut i: usize = 0;
    assert(bytes@.skip(0) =~= bytes@);
    assert(out@ + percent_decoded(bytes@) =~= percent_decoded(bytes@));
    while i < bytes.len()
        invariant
            i <= bytes.len(),
            out@ + percent_decoded(bytes@.skip(i as int)) == percent_decoded(bytes@),
        decreases bytes.len() - i,
    {
        let ghost rest = bytes@.skip(i as int);
        let ghost before = out@;
        let c: u8 = bytes[i];
        assert(rest[0] == c);
        assert(rest.skip(1) =~= bytes@.skip(i + 1));
        if c == 0x25 && bytes.len() - i > 2 {
            assert(rest[1] == bytes@[i + 1]);
            assert(rest[2] == bytes@[i + 2]);
            match (numbers::hex(bytes[i + 1]), numbers::hex(bytes[i + 2])) {
                (Some(a), Some(b)) => {
                    assert(rest.skip(3) =~= bytes@.skip(i + 3));
                    let v: u8 = a * 16 + b;
                    out.push(v);
                    assert(out@ + percent_decoded(rest.skip(3)) =~= before + percent_decoded(rest));
                    i = i + 3;
                },
                _ => {
                    out.push(c);
                    assert(out@ + percent_decoded(rest.skip(1)) =~= before + percent_decoded(rest));
                    i = i + 1;
                },
            }
        } else if c == 0x2b {
            out.push(0x20);
            assert(out@ + percent_decoded(rest.skip(1)) =~= before + percent_decoded(rest));
            i = i + 1;
        } else {
            out.push(c);
            assert(out@ + percent_decoded(rest.skip(1)) =~= before + percent_decoded(rest));
            i = i + 1;
        }
    }
    assert(bytes@.skip(i as int) =~= Seq::<u8>::empty());
    assert(out@ + percent_decoded(bytes@.skip(i as int)) =~= out@);
    out
}

/// Decode a component of a URL.
pub fn url_decode(input: &str) -> (r: String)
    ensures
        r@ == url_decoded(input@),
{
    let decoded = percent_decode(input.as_bytes());
    decode_lossy(decoded.as_slice())
}

// ---------------------------------------------------------------------------
// Requests

/// A key and its value, as a query writes them.
pub open spec fn query_pair(part: Seq<char>) -> (Seq<char>, Seq<char>) {
    match text::split_once(part, '=') {
        Some(p) => (url_decoded(p.0), url_decoded(p.1)),
        None => (url_decoded(part), url_decoded(Seq::empty())),
    }
}

/// The query that the parts between ampersands write.
pub open spec fn query_of(parts: Seq<Seq<char>>) -> Map<Seq<char>, Seq<char>>
    decreases parts.len(),
{
    if parts.len() == 0 {
        Map::empty()
    } else if parts.last().len() == 0 {
        query_of(parts.drop_last())
    } else {
        query_of(parts.drop_last()).insert(query_pair(parts.last()).0, query_pair(parts.last()).1)
    }
}

/// Parse a query.
fn parse_query(raw: &str) -> (r: Vec<QueryPair>)
    ensures
        pairs_map(r@) == query_of(text::split(raw@, '&')),
{
    let parts = split_at_char(raw, '&');
    let ghost all = text::views(parts@);
    let mut out: Vec<QueryPair> = Vec::new();
    let mut i: usize = 0;
    while i < parts.len()
        invariant
            all == text::views(parts@),
            i <= parts.len(),
            pairs_map(out@) == query_of(all.take(i as int)),
        decreases parts.len() - i,
    {
        let part = parts[i].as_str();
        let ghost next = all.take(i + 1);
        let ghost before = out@;
        assert(next.drop_last() =~= all.take(i as int));
        assert(next.last() == part@);
        if !part.is_empty() {
            let pair = match split_pair(part, '=') {
                Some((k, v)) => QueryPair {
                    key: url_decode(k.as_str()),
                    value: url_decode(v.as_str()),
                },
                None => {
                    let none = String::new();
                    assert(none@ =~= Seq::<char>::empty());
                    QueryPair { key: url_decode(part), value: url_decode(none.as_str()) }
                },
            };
            assert((pair.key@, pair.value@) == query_pair(part@));
            out.push(pair);
            assert(out@.drop_last() =~= before);
        }
        i = i + 1;
    }
    assert(all.take(i as int) =~= all);
    out
}

/// The value of the first header line that is named `host`. The header lines end
/// at the first empty line.
pub open spec fn host_in(lines: Seq<Seq<char>>) -> Option<Seq<char>>
    decreases lines.len(),
{
    if lines.len() == 0 || lines[0].len() == 0 {
        None
    } else {
        match text::split_once(lines[0], ':') {
            Some(p) => if text::lower(p.0) == "host"@ {
                Some(text::trim(p.1, Class::Space))
            } else {
                host_in(lines.drop_first())
            },
            None => host_in(lines.drop_first()),
        }
    }
}

/// Find the Host header among the header lines, which follow the first line and
/// end at an empty one.
fn parse_host(lines: &Vec<String>) -> (r: Option<String>)
    requires
        lines@.len() > 0,
    ensures
        r is Some <==> host_in(text::views(lines@).skip(1)) is Some,
        r matches Some(h) ==> host_in(text::views(lines@).skip(1)) == Some(h@),
{
    let ghost all = text::views(lines@);
    let mut i: usize = 1;
    while i < lines.len()
        invariant
            all == text::views(lines@),
            1 <= i <= lines.len(),
            host_in(all.skip(i as int)) == host_in(all.skip(1)),
        decreases lines.len() - i,
    {
        let line = lines[i].as_str();
        assert(all.skip(i as int)[0] == line@);
        assert(all.skip(i as int).drop_first() =~= all.skip(i + 1));
        if line.is_empty() {
            return None;
        }
        if let Some((name, value)) = split_pair(line, ':') {
            let lowered = to_lower(name.as_str());
            if same(lowered.as_str(), "host") {
                return Some(trimmed(value.as_str(), Class::Space));
            }
        }
        i = i + 1;
    }
    assert(all.skip(i as int) =~= Seq::empty());
    None
}

/// The target of a request, up to its question mark and after it.
pub open spec fn target_parts(target: Seq<char>) -> (Seq<char>, Seq<char>) {
    match text::split_once(target, '?') {
        Some(p) => p,
        None => (target, Seq::empty()),
    }
}

/// The request that `raw` writes: its first line must have three words.
pub open spec fn request_of(raw: Seq<char>) -> Option<RequestView> {
    let lines = text::lines(raw);
    if lines.len() == 0 || text::words(lines[0]).len() < 3 {
        None
    } else {
        let words = text::words(lines[0]);
        let target = target_parts(words[1]);
        Some(
            RequestView {
                method: words[0],
                path: url_decoded(target.0),
                query: query_of(text::split(target.1, '&')),
                host: host_in(lines.skip(1)),
            },
        )
    }
}

/// Parse the raw HTTP request into the small request model.
pub fn parse(raw: &str) -> (r: Option<Request>)
    ensures
        r is Some <==> request_of(raw@) is Some,
        r matches Some(q) ==> request_of(raw@) == Some(q@),
{
    let lines = split_lines(raw);
    if lines.len() == 0 {
        assert(text::views(lines@).len() == 0);
        return None;
    }
    assert(text::views(lines@)[0] == lines@[0]@);
    let words = split_words(lines[0].as_str());
    assert(text::views(words@).len() == words@.len());
    if words.len() < 3 {
        return None;
    }
    assert(text::views(words@)[0] == words@[0]@);
    assert(text::views(words@)[1] == words@[1]@);
    let method = words[0].as_str().to_owned();
    let (path_part, query_part) = match split_pair(words[1].as_str(), '?') {
        Some(p) => p,
        None => {
            let none = String::new();
            assert(none@ =~= Seq::<char>::empty());
            (words[1].as_str().to_owned(), none)
        },
    };
    Some(
        Request {
            method,
            path: url_decode(path_part.as_str()),
            query: parse_query(query_part.as_str()),
            host: parse_host(&lines),
        },
    )
}

// ---------------------------------------------------------------------------
// Responses

/// The headers that every response carries for the browser's sake.
pub const SECURITY_HEADERS: &'static str = "X-Content-Type-Options: nosniff\r\nContent-Security-Policy: default-src 'none'; style-src 'unsafe-inline'; form-action 'self'; base-uri 'none'; frame-ancestors 'none'\r\nReferrer-Policy: no-referrer\r\nX-Frame-Options: DENY\r\n";

/// The status line and headers of a response, up to and with the empty line.
pub open spec fn head_text(
    status: u16,
    reason: Seq<char>,
    content_type: Seq<char>,
    length: nat,
) -> Seq<char> {
    "HTTP/1.1 "@ + numbers::decimal(status as nat) + " "@ + reason + "\r\nContent-Type: "@
        + content_type + "\r\nContent-Length: "@ + numbers::decimal(length)
        + "\r\nConnection: close\r\n"@ + SECURITY_HEADERS@ + "\r\n"@
}

/// A whole response.
pub open spec fn response_of(
    status: u16,
    reason: Seq<char>,
    content_type: Seq<char>,
    body: Seq<u8>,
) -> Seq<u8> {
    encode_utf8(head_text(status, reason, content_type, body.len())) + body
}

/// The status line and headers of a response with a body of `length` bytes.
pub fn response_head(status: u16, reason: &str, content_type: &str, length: usize) -> (r: String)
    ensures
        r@ == head_text(status, reason@, content_type@, length as nat),
{
    let mut out = String::new();
    out.append("HTTP/1.1 ");
    let code = decimal_of(status as u64);
    out.append(code.as_str());
    out.append(" ");
    out.append(reason);
    out.append("\r\nContent-Type: ");
    out.append(content_type);
    out.append("\r\nContent-Length: ");
    let size = decimal_of(length as u64);
    out.append(size.as_str());
    out.append("\r\nConnection: close\r\n");
    out.append(SECURITY_HEADERS);
    out.append("\r\n");
    assert(out@ =~= head_text(status, reason@, content_type@, length as nat));
    out
}

/// Build a byte response with common security headers.
pub fn response_bytes(status: u16, reason: &str, content_type: &str, body: Vec<u8>) -> (r: Vec<u8>)
    ensures
        r@ == response_of(status, reason@, content_type@, body@),
{
    let head = response_head(status, reason, content_type, body.len());
    let mut out = slice_to_vec(head.as_str().as_bytes());
    let mut body = body;
    out.append(&mut body);
    out
}

/// Build a text response.
pub fn response(status: u16, reason: &str, content_type: &str, body: &str) -> (r: Vec<u8>)
    ensures
        r@ == response_of(status, reason@, content_type@, encode_utf8(body@)),
{
    response_bytes(status, reason, content_type, slice_to_vec(body.as_bytes()))
}

}
