//! HTML rendering helpers.

use vstd::prelude::*;
use vstd::utf8::*;
use crate::numbers::{self, capital_hex_digit};
use crate::text::chars_of;

verus! {

/// How a character stands in an HTML text node.
pub open spec fn text_escape(c: char) -> Seq<char> {
    if c == '&' {
        "&amp;"@
    } else if c == '<' {
        "&lt;"@
    } else if c == '>' {
        "&gt;"@
    } else {
        seq![c]
    }
}

/// How a character stands in an HTML attribute.
pub open spec fn attr_escape(c: char) -> Seq<char> {
    if c == '"' {
        "&quot;"@
    } else if c == '\'' {
        "&#x27;"@
    } else {
        text_escape(c)
    }
}

/// `s` with each character escaped.
pub open spec fn escaped(s: Seq<char>, escape: spec_fn(char) -> Seq<char>) -> Seq<char>
    decreases s.len(),
{
    if s.len() == 0 {
        Seq::empty()
    } else {
        escaped(s.drop_last(), escape) + escape(s.last())
    }
}

/// `s` in an HTML text node.
pub open spec fn escaped_text(s: Seq<char>) -> Seq<char> {
    escaped(s, |c: char| text_escape(c))
}

/// `s` in an HTML attribute.
pub open spec fn escaped_attr(s: Seq<char>) -> Seq<char> {
    escaped(s, |c: char| attr_escape(c))
}

/// Escape text for HTML text-node context.
pub fn text(input: &str) -> (r: String)
    ensures
        r@ == escaped_text(input@),
{
    let v = chars_of(input);
    let mut out = String::new();
    let mut i: usize = 0;
    while i < v.len()
        invariant
            v@ == input@,
            i <= v.len(),
            out@ == escaped_text(input@.take(i as int)),
        decreases v.len() - i,
    {
        let c: char = v[i];
        let ghost before = out@;
        assert(input@.take(i + 1).drop_last() =~= input@.take(i as int));
        if c == '&' {
            out.append("&amp;");
        } else if c == '<' {
            out.append("&lt;");
        } else if c == '>' {
            out.append("&gt;");
        } else {
            out.push(c);
            assert(out@ =~= before + seq![c]);
        }
        i = i + 1;
    }
    assert(input@.take(i as int) =~= input@);
    out
}

/// Escape text for HTML attribute context.
pub fn attr(input: &str) -> (r: String)
    ensures
        r@ == escaped_attr(input@),
{
    let v = chars_of(input);
    let mut out = String::new();
    let mut i: usize = 0;
    while i < v.len()
        invariant
            v@ == input@,
            i <= v.len(),
            out@ == escaped_attr(input@.take(i as int)),
        decreases v.len() - i,
    {
        let c: char = v[i];
        let ghost before = out@;
        assert(input@.take(i + 1).drop_last() =~= input@.take(i as int));
        if c == '"' {
            out.append("&quot;");
        } else if c == '\'' {
            out.append("&#x27;");
        } else if c == '&' {
            out.append("&amp;");
        } else if c == '<' {
            out.append("&lt;");
        } else if c == '>' {
            out.append("&gt;");
        } else {
            out.push(c);
            assert(out@ =~= before + seq![c]);
        }
        i = i + 1;
    }
    assert(input@.take(i as int) =~= input@);
    out
}

/// True for the bytes that stand for themselves in a URL.
pub open spec fn url_plain(b: u8, encode_slash: bool) -> bool {
    ||| 0x30 <= b <= 0x39
    ||| 0x41 <= b <= 0x5a
    ||| 0x61 <= b <= 0x7a
    ||| b == 0x2d
    ||| b == 0x5f
    ||| b == 0x2e
    ||| b == 0x7e
    ||| !encode_slash && b == 0x2f
}

/// How a byte stands in a URL.
pub open spec fn url_escape(b: u8, encode_slash: bool) -> Seq<char> {
    if url_plain(b, encode_slash) {
        seq![b as char]
    } else {
        seq!['%', numbers::capital_hex((b / 16) as u8), numbers::capital_hex((b % 16) as u8)]
    }
}

/// How bytes stand in a URL.
pub open spec fn url_escaped(bytes: Seq<u8>, encode_slash: bool) -> Seq<char>
    decreases bytes.len(),
{
    if bytes.len() == 0 {
        Seq::empty()
    } else {
        url_escaped(bytes.drop_last(), encode_slash) + url_escape(bytes.last(), encode_slash)
    }
}

/// `s` as part of a URL's path; slashes stand for themselves.
pub open spec fn path_encoded(s: Seq<char>) -> Seq<char> {
    url_escaped(encode_utf8(s), false)
}

/// `s` as a value in a URL's query.
pub open spec fn query_encoded(s: Seq<char>) -> Seq<char> {
    url_escaped(encode_utf8(s), true)
}

/// Percent-encode a path segment for URLs.
pub fn url_path(input: &str) -> (r: String)
    ensures
        r@ == path_encoded(input@),
{
    url_encode(input, false)
}

/// Percent-encode a query value for URLs.
pub fn url_query(input: &str) -> (r: String)
    ensures
        r@ == query_encoded(input@),
{
    url_encode(input, true)
}

/// Percent-encode the bytes of `input`.
fn url_encode(input: &str, encode_slash: bool) -> (r: String)
    ensures
        r@ == url_escaped(encode_utf8(input@), encode_slash),
{
    let bytes = input.as_bytes();
    let mut out = String::new();
    let mut i: usize = 0;
    while i < bytes.len()
        invariant
            bytes@ == encode_utf8(input@),
            i <= bytes.len(),
            out@ == url_escaped(bytes@.take(i as int), encode_slash),
        decreases bytes.len() - i,
    {
        let b: u8 = bytes[i];
        let ghost before = out@;
        assert(bytes@.take(i + 1).drop_last() =~= bytes@.take(i as int));
        let ok: bool = (0x30 <= b && b <= 0x39) || (0x41 <= b && b <= 0x5a) || (0x61 <= b && b
            <= 0x7a) || b == 0x2d || b == 0x5f || b == 0x2e || b == 0x7e || (!encode_slash && b
            == 0x2f);
        if ok {
            out.push(b as char);
            assert(out@ =~= before + seq![b as char]);
        } else {
            out.push('%');
            out.push(capital_hex_digit(b / 16));
            out.push(capital_hex_digit(b % 16));
            assert(out@ =~= before + url_escape(b, encode_slash));
        }
        i = i + 1;
    }
    assert(bytes@.take(i as int) =~= bytes@);
    out
}

/// The page with that title and body.
pub open spec fn page_text(title: Seq<char>, body: Seq<char>) -> Seq<char> {
    PAGE_START@ + escaped_text(title) + "</title><style>"@ + CSS@ + "</style></head><body>"@ + body
        + "</body></html>"@
}

/// Wrap a body fragment in the shared HTML shell.
pub fn page(title: &str, body: &str) -> (r: String)
    ensures
        r@ == page_text(title@, body@),
{
    let mut out: String = PAGE_START.to_owned();
    let title = text(title);
    out.append(title.as_str());
    out.append("</title><style>");
    out.append(CSS);
    out.append("</style></head><body>");
    out.append(body);
    out.append("</body></html>");
    out
}

/// What stands before a page's title.
pub const PAGE_START: &'static str = "<!doctype html><html><head><meta charset=\"utf-8\"><meta name=\"viewport\" content=\"width=device-width,initial-scale=1\"><title>";

/// The style of every page.
pub const CSS: &'static str = "body{font:16px ui-monospace,SFMono-Regular,Consolas,'Liberation Mono',monospace;max-width:1180px;margin:1.5rem auto;padding:0 1rem;color:#f5f5f5;background:#111}a{color:#f5f5f5;text-decoration:none}a:hover{text-decoration:underline}.topbar{display:flex;gap:1rem;align-items:center;justify-content:space-between;margin-bottom:2rem}.search,.index-search{display:flex;gap:.4rem}.index-search{margin:1.5rem 0 2rem}.search input,.index-search input{background:#1d1d1d;border:1px solid #444;color:#f5f5f5;padding:.35rem .5rem}.search button,.index-search button{background:#2b2b2b;border:1px solid #555;color:#f5f5f5;padding:.35rem .6rem}table{border-collapse:collapse;width:100%;margin-bottom:.5rem}th,td{padding:.25rem .6rem;text-align:left;vertical-align:top}th{font-weight:700}tr:nth-child(even) td{background:#1d1d1d}.summary-block{margin-bottom:3rem}.muted{color:#9b9b9b}.ref{display:inline-block;background:#118611;border:1px solid #31b731;color:#fff;padding:0 .25rem;margin-left:.25rem}.ref.head{background:#9d1732;border-color:#d33}.clone-url{background:#1d1d1d;padding:.35rem .6rem}pre{background:#1d1d1d;border:1px solid #333;overflow:auto;padding:1rem}code{background:#1d1d1d;padding:.1rem .2rem}";

}
