//! Requests: what a client sends is what the library works with.

use vstd::prelude::*;
use vstd::utf8::*;
use crate::app::parts;
use crate::app::route::{self, RouteView};
use crate::app::session::{self, SiteView, StepView};
use crate::config::ConfigView;
use crate::http::{self, RequestView};
use crate::laws::{commits, links, responses, texts, urls};
use crate::security;
use crate::text::{self, Class};
use crate::html;

verus! {

/// True for a word: not empty, and without white space.
pub open spec fn is_word(s: Seq<char>) -> bool {
    s.len() > 0 && forall|i: int| 0 <= i < s.len() ==> !text::is_space(#[trigger] s[i])
}

/// A request as a client sends it: the request line, the host, and an empty line.
pub open spec fn request_text(
    method: Seq<char>,
    target: Seq<char>,
    version: Seq<char>,
    host: Seq<char>,
) -> Seq<char> {
    (method + seq![' '] + (target + seq![' '] + version)) + "\r\n"@ + ("Host: "@ + host + "\r\n"@
        + "\r\n"@)
}

/// The words of a text that starts with a word and a space.
pub proof fn lemma_words_cons(word: Seq<char>, rest: Seq<char>)
    requires
        is_word(word),
    ensures
        text::words(word + seq![' '] + rest) == seq![word] + text::words(rest),
{
    let s = word + seq![' '] + rest;
    let n = word.len() as int;
    assert(text::is_space(' '));
    text::lemma_word_len(s);
    assert(s[n] == ' ');
    assert(forall|i: int| 0 <= i < n ==> s[i] == word[i]);
    assert(text::word_len(s) == n) by {
        let k = text::word_len(s) as int;
        if k < n {
            assert(text::is_space(s[k]));
            assert(!text::is_space(word[k]));
        }
        if k > n {
            assert(!text::is_space(s[n]));
        }
    }
    assert(s.take(n) =~= word);
    assert(!text::is_space(word[0]));
    let tail = s.skip(n);
    assert(tail =~= seq![' '] + rest);
    assert(tail.drop_first() =~= rest);
    assert(text::words(tail) == text::words(rest));
}

/// A word is its own only word.
pub proof fn lemma_words_one(word: Seq<char>)
    requires
        is_word(word),
    ensures
        text::words(word) == seq![word],
{
    let n = word.len() as int;
    text::lemma_word_len(word);
    assert(text::word_len(word) == n) by {
        let k = text::word_len(word) as int;
        if k < n {
            assert(text::is_space(word[k]));
        }
    }
    assert(word.take(n) =~= word);
    assert(!text::is_space(word[0]));
    assert(word.skip(n) =~= Seq::empty());
    assert(text::words(Seq::empty()) =~= Seq::empty());
}

/// The lines of a text that starts with a line and a carriage return and a line
/// feed.
proof fn lemma_lines_crlf(a: Seq<char>, rest: Seq<char>)
    requires
        !a.contains('\n'),
    ensures
        text::lines(a + "\r\n"@ + rest) == seq![a] + text::lines(rest),
{
    reveal_strlit("\r\n");
    let s = a + "\r\n"@ + rest;
    let n = a.len() as int;
    assert forall|j: int| 0 <= j < n + 1 implies s[j] != '\n' by {
        if j < n {
            assert(s[j] == a[j]);
            assert(a.contains(a[j]));
        } else {
            assert(s[j] == '\r');
        }
    }
    assert(s[n + 1] == '\n');
    text::lemma_until_is(s, '\n', n + 1);
    assert(s.take(n + 1) =~= a.push('\r'));
    assert(a.push('\r').drop_last() =~= a);
    assert(s.skip(n + 2) =~= rest);
}

/// What follows a space is left when a trimmed text is trimmed.
pub proof fn lemma_trim_before(s: Seq<char>)
    requires
        commits::trimmed(s),
    ensures
        text::trim(seq![' '] + s, Class::Space) == s,
{
    let t = seq![' '] + s;
    assert(text::is_space(' '));
    assert(t.drop_first() =~= s);
    assert(text::trim_start(t, Class::Space) == text::trim_start(s, Class::Space));
    assert(text::trim_start(s, Class::Space) == s);
    assert(text::trim_end(s, Class::Space) == s);
}

/// The host that a header line names.
proof fn lemma_host_line(host: Seq<char>, rest: Seq<Seq<char>>)
    requires
        commits::trimmed(host),
    ensures
        http::host_in(seq!["Host: "@ + host] + rest) == Some(host),
{
    reveal_strlit("Host: ");
    reveal_strlit("host");
    let line = "Host: "@ + host;
    let lines = seq![line] + rest;
    assert(lines[0] == line);
    assert(line[0] == 'H' && line[1] == 'o' && line[2] == 's' && line[3] == 't');
    assert(line[4] == ':');
    text::lemma_until_is(line, ':', 4);
    assert(text::lower(line.take(4)) =~= "host"@);
    assert(line.skip(5) =~= seq![' '] + host);
    lemma_trim_before(host);
}

/// True for the name of the header that names the host, in any case.
pub open spec fn is_host(name: Seq<char>) -> bool {
    &&& name.len() == 4
    &&& name[0] == 'h' || name[0] == 'H'
    &&& name[1] == 'o' || name[1] == 'O'
    &&& name[2] == 's' || name[2] == 'S'
    &&& name[3] == 't' || name[3] == 'T'
}

/// A header line: a name, a colon and a value.
pub open spec fn header_line(h: (Seq<char>, Seq<char>)) -> Seq<char> {
    h.0 + seq![':'] + h.1
}

proof fn lemma_header(h: (Seq<char>, Seq<char>), rest: Seq<Seq<char>>)
    requires
        !h.0.contains(':'),
    ensures
        http::host_in(seq![header_line(h)] + rest) == (if is_host(h.0) {
            Some(text::trim(h.1, Class::Space))
        } else {
            http::host_in(rest)
        }),
{
    reveal_strlit("host");
    let line = header_line(h);
    let n = h.0.len() as int;
    let lines = seq![line] + rest;
    assert(lines[0] == line);
    assert(lines.drop_first() =~= rest);
    assert forall|j: int| 0 <= j < n implies line[j] != ':' by {
        assert(line[j] == h.0[j]);
        assert(h.0.contains(h.0[j]));
    }
    assert(line[n] == ':');
    text::lemma_until_is(line, ':', n);
    assert(line.take(n) =~= h.0);
    assert(line.skip(n + 1) =~= h.1);
    let small = text::lower(h.0);
    let host = "host"@;
    assert(host.len() == 4 && host[0] == 'h' && host[1] == 'o' && host[2] == 's' && host[3] == 't');
    if is_host(h.0) {
        assert(small =~= host);
    }
    if small == host {
        assert(h.0.len() == 4);
        texts::law_letters_are_made_small(h.0, 0);
        texts::law_letters_are_made_small(h.0, 1);
        texts::law_letters_are_made_small(h.0, 2);
        texts::law_letters_are_made_small(h.0, 3);
        lemma_letter(h.0[0], 'h', 'H');
        lemma_letter(h.0[1], 'o', 'O');
        lemma_letter(h.0[2], 's', 'S');
        lemma_letter(h.0[3], 't', 'T');
    }
}

proof fn lemma_letter(c: char, small: char, capital: char)
    requires
        capital as u32 + 32 == small as u32,
        texts::capital(c) ==> c as u32 + 32 == small as u32,
        !texts::capital(c) ==> c == small,
    ensures
        c == small || c == capital,
{
}

/// The host is what the first header of that name says, without the white space
/// around it, whatever headers stand before it and whatever the case of its name.
pub proof fn law_first_host_header_counts(
    headers: Seq<(Seq<char>, Seq<char>)>,
    k: int,
    a: Seq<char>,
    host: Seq<char>,
    b: Seq<char>,
)
    requires
        0 <= k < headers.len(),
        forall|i: int| 0 <= i < headers.len() ==> !(#[trigger] headers[i]).0.contains(':'),
        forall|i: int| 0 <= i < k ==> !is_host((#[trigger] headers[i]).0),
        is_host(headers[k].0),
        headers[k].1 == a + host + b,
        texts::all_blank(a),
        texts::all_blank(b),
        host.len() > 0 ==> !texts::blank(host[0]) && !texts::blank(host.last()),
    ensures
        http::host_in(headers.map_values(|h: (Seq<char>, Seq<char>)| header_line(h))) == Some(host),
    decreases k,
{
    let lines = headers.map_values(|h: (Seq<char>, Seq<char>)| header_line(h));
    let rest = headers.drop_first();
    let fewer = rest.map_values(|h: (Seq<char>, Seq<char>)| header_line(h));
    assert(lines =~= seq![header_line(headers[0])] + fewer);
    lemma_header(headers[0], fewer);
    if k == 0 {
        texts::law_blanks_around_are_taken_off(a, host, b);
    } else {
        assert forall|i: int| 0 <= i < rest.len() implies !(#[trigger] rest[i]).0.contains(':') by {
            assert(rest[i] == headers[i + 1]);
        }
        assert forall|i: int| 0 <= i < k - 1 implies !is_host((#[trigger] rest[i]).0) by {
            assert(rest[i] == headers[i + 1]);
        }
        assert(rest[k - 1] == headers[k]);
        law_first_host_header_counts(rest, k - 1, a, host, b);
    }
}

/// Where no header names the host, there is none.
pub proof fn law_no_host_without_header(headers: Seq<(Seq<char>, Seq<char>)>)
    requires
        forall|i: int|
            0 <= i < headers.len() ==> !(#[trigger] headers[i]).0.contains(':') && !is_host(
                headers[i].0,
            ),
    ensures
        http::host_in(headers.map_values(|h: (Seq<char>, Seq<char>)| header_line(h))) is None,
    decreases headers.len(),
{
    let lines = headers.map_values(|h: (Seq<char>, Seq<char>)| header_line(h));
    if headers.len() > 0 {
        let rest = headers.drop_first();
        let fewer = rest.map_values(|h: (Seq<char>, Seq<char>)| header_line(h));
        assert(lines =~= seq![header_line(headers[0])] + fewer);
        lemma_header(headers[0], fewer);
        assert forall|i: int| 0 <= i < rest.len() implies !(#[trigger] rest[i]).0.contains(':')
            && !is_host(rest[i].0) by {
            assert(rest[i] == headers[i + 1]);
        }
        law_no_host_without_header(rest);
    }
}

/// What follows the empty line after the headers names no host.
pub proof fn law_host_stands_among_headers(headers: Seq<Seq<char>>, body: Seq<Seq<char>>)
    ensures
        http::host_in(headers.push(Seq::empty()) + body) == http::host_in(headers),
    decreases headers.len(),
{
    let all = headers.push(Seq::empty()) + body;
    if headers.len() > 0 {
        let rest = headers.drop_first();
        law_host_stands_among_headers(rest, body);
        assert(all[0] == headers[0]);
        assert(all.drop_first() =~= rest.push(Seq::empty()) + body);
    }
}

/// A word stands in one line.
pub proof fn lemma_word_in_line(s: Seq<char>)
    requires
        is_word(s),
    ensures
        !s.contains('\n'),
{
    assert(text::is_space('\n'));
    if s.contains('\n') {
        let i = choose|i: int| 0 <= i < s.len() && s[i] == '\n';
        assert(!text::is_space(s[i]));
    }
}

/// A request is read as its parts: the method, the path and the query of the
/// target, and the host.
pub proof fn law_request_is_read(
    method: Seq<char>,
    target: Seq<char>,
    version: Seq<char>,
    host: Seq<char>,
)
    requires
        is_word(method),
        is_word(target),
        is_word(version),
        commits::one_line(host),
        commits::trimmed(host),
    ensures
        http::request_of(request_text(method, target, version, host)) == Some(
            RequestView {
                method,
                path: http::url_decoded(http::target_parts(target).0),
                query: http::query_of(text::split(http::target_parts(target).1, '&')),
                host: Some(host),
            },
        ),
{
    reveal_strlit("\r\n");
    reveal_strlit("Host: ");
    let first = method + seq![' '] + (target + seq![' '] + version);
    let second = "Host: "@ + host;
    let end = "\r\n"@;
    let none: Seq<char> = Seq::empty();
    let raw = request_text(method, target, version, host);
    lemma_word_in_line(method);
    lemma_word_in_line(target);
    lemma_word_in_line(version);
    assert forall|i: int| 0 <= i < first.len() implies first[i] != '\n' by {
        let m = method.len();
        let t = target.len();
        if i < m {
            assert(first[i] == method[i]);
            assert(method.contains(method[i]));
        } else if m < i < m + 1 + t {
            assert(first[i] == target[i - m - 1]);
            assert(target.contains(target[i - m - 1]));
        } else if i > m + 1 + t {
            assert(first[i] == version[i - m - t - 2]);
            assert(version.contains(version[i - m - t - 2]));
        }
    }
    assert forall|i: int| 0 <= i < second.len() implies second[i] != '\n' by {
        if i >= 6 {
            assert(second[i] == host[i - 6]);
            assert(host.contains(host[i - 6]));
        }
    }
    lemma_lines_crlf(first, second + end + end);
    lemma_lines_crlf(second, end);
    lemma_lines_crlf(none, none);
    assert(none + end + none =~= end);
    assert(raw =~= first + end + (second + end + end));
    let lines = text::lines(raw);
    assert(lines == seq![first] + (seq![second] + text::lines(end)));
    assert(lines[0] == first);
    assert(lines.skip(1) =~= seq![second] + text::lines(end));
    lemma_words_cons(method, target + seq![' '] + version);
    lemma_words_cons(target, version);
    lemma_words_one(version);
    let words = text::words(first);
    assert(words =~= seq![method, target, version]);
    lemma_host_line(host, text::lines(end));
}

/// True when no character of a text is white space.
pub proof fn lemma_link_is_word(name: Seq<char>, page: Seq<char>)
    requires
        links::plain_text(page),
    ensures
        is_word(parts::base_path(name) + "/"@ + page),
        !(parts::base_path(name) + "/"@ + page).contains('?'),
{
    reveal_strlit("/repo/");
    reveal_strlit("/");
    let encoded = html::path_encoded(name);
    let link = parts::base_path(name) + "/"@ + page;
    let n = encoded.len() as int;
    assert forall|i: int| 0 <= i < link.len() implies !text::is_space(#[trigger] link[i]) && link[i]
        != '?' by {
        if 6 <= i < 6 + n {
            assert(link[i] == encoded[i - 6]);
            urls::law_encoded_is_plain(name, i - 6);
        } else if i > 6 + n {
            assert(link[i] == page[i - 7 - n]);
            assert(links::plain_char(page[i - 7 - n]));
        }
    }
}

/// A client that follows a link to a page of a repository makes the server look
/// for that repository, whatever its name holds.
pub proof fn law_followed_link_finds_repository(
    config: ConfigView,
    name: Seq<char>,
    page: Seq<char>,
    host: Seq<char>,
)
    requires
        security::repo_name_ok(name),
        links::plain_text(page),
        page.len() > 0,
        !page.contains('/'),
        commits::one_line(host),
        commits::trimmed(host),
    ensures
        ({
            let target = parts::base_path(name) + "/"@ + page;
            let input = encode_utf8(request_text("GET"@, target, "HTTP/1.1"@, host));
            session::received(config, input) matches StepView::Find(req, path) && path
                == config.repo_root.push(name) && req.host == Some(host) && route::route_of(
                req.path,
            ) == (RouteView::Repository { name, rest: seq![page] })
        }),
{
    reveal_strlit("GET");
    reveal_strlit("HTTP/1.1");
    let target = parts::base_path(name) + "/"@ + page;
    let raw = request_text("GET"@, target, "HTTP/1.1"@, host);
    let input = encode_utf8(raw);
    lemma_link_is_word(name, page);
    law_request_is_read("GET"@, target, "HTTP/1.1"@, host);
    encode_utf8_valid_utf8(raw);
    encode_utf8_decode_utf8(raw);
    assert(input.len() > 0) by {
        text::lemma_scalar_bytes(raw[0]);
    }
    assert forall|j: int| 0 <= j < target.len() implies target[j] != '?' by {
        assert(target.contains(target[j]));
    }
    text::lemma_until_is(target, '?', target.len() as int);
    links::law_page_link_leads_to_page(name, page);
}

/// The lines of a text that starts with a word and a space are those of the text
/// without them, but that the first line starts with both.
proof fn lemma_lines_after_word(word: Seq<char>, rest: Seq<char>)
    requires
        is_word(word),
    ensures
        ({
            let all = text::lines(word + seq![' '] + rest);
            let n = text::until(rest, '\n') as int;
            &&& all.len() > 0
            &&& all[0] == word + seq![' '] + first_line(rest)
            &&& all.skip(1) == if n < rest.len() {
                text::lines(rest.skip(n + 1))
            } else {
                Seq::empty()
            }
        }),
{
    let start = word + seq![' '];
    let s = start + rest;
    let m = start.len() as int;
    let n = text::until(rest, '\n') as int;
    text::lemma_until(rest, '\n');
    lemma_word_in_line(word);
    assert forall|j: int| 0 <= j < m + n implies s[j] != '\n' by {
        if j < word.len() {
            assert(s[j] == word[j]);
            assert(word.contains(word[j]));
        } else if j < m {
            assert(s[j] == ' ');
        } else {
            assert(s[j] == rest[j - m]);
        }
    }
    assert(n < rest.len() ==> s[m + n] == rest[n]);
    text::lemma_until_is(s, '\n', m + n);
    if n < rest.len() {
        let line = rest.take(n);
        assert(s.take(m + n) =~= start + line);
        assert(text::drop_cr(start + line) =~= start + text::drop_cr(line)) by {
            if line.len() > 0 {
                assert((start + line).last() == line.last());
            } else {
                assert((start + line).last() == ' ');
            }
        }
        assert(s.skip(m + n + 1) =~= rest.skip(n + 1));
        let all = text::lines(s);
        assert(all == seq![start + text::drop_cr(line)] + text::lines(rest.skip(n + 1)));
        assert(all.skip(1) =~= text::lines(rest.skip(n + 1)));
    } else {
        assert(text::lines(s) == seq![s]);
        assert(text::lines(s).skip(1) =~= Seq::empty());
    }
}

/// What stands before the first line end; all of `s` when there is none.
pub open spec fn first_line(s: Seq<char>) -> Seq<char> {
    let n = text::until(s, '\n') as int;
    if n < s.len() {
        text::drop_cr(s.take(n))
    } else {
        s
    }
}

/// The first word of a request is its method, and nothing else of the request
/// depends on it.
pub proof fn law_first_word_is_method(a: Seq<char>, b: Seq<char>, rest: Seq<char>)
    requires
        is_word(a),
        is_word(b),
    ensures
        match http::request_of(a + seq![' '] + rest) {
            Some(req) => req.method == a && http::request_of(b + seq![' '] + rest) == Some(
                RequestView { method: b, ..req },
            ),
            None => http::request_of(b + seq![' '] + rest) is None,
        },
{
    lemma_lines_after_word(a, rest);
    lemma_lines_after_word(b, rest);
    let line = first_line(rest);
    lemma_words_cons(a, line);
    lemma_words_cons(b, line);
    let words = text::words(line);
    assert((seq![a] + words).len() == words.len() + 1);
    assert((seq![b] + words).len() == words.len() + 1);
    if words.len() > 0 {
        assert((seq![a] + words)[1] == words[0]);
        assert((seq![b] + words)[1] == words[0]);
    }
}

/// A client that sends one request twice, with `HEAD` in place of `GET` the second
/// time, is sent the header of the first reply.
pub proof fn law_head_for_get_gives_the_header(
    config: ConfigView,
    rest: Seq<char>,
    site: SiteView,
)
    requires
        http::request_of("GET"@ + seq![' '] + rest) is Some,
    ensures
        ({
            let get = encode_utf8("GET"@ + seq![' '] + rest);
            let head = encode_utf8("HEAD"@ + seq![' '] + rest);
            session::last_step(config, get, site) matches StepView::Send(g) && session::last_step(
                config,
                head,
                site,
            ) matches StepView::Send(h) && responses::cut_at_empty_line(g, h)
                && responses::is_header_of(h, g)
        }),
{
    reveal_strlit("GET");
    reveal_strlit("HEAD");
    let get = "GET"@ + seq![' '] + rest;
    let head = "HEAD"@ + seq![' '] + rest;
    law_first_word_is_method("GET"@, "HEAD"@, rest);
    encode_utf8_valid_utf8(get);
    encode_utf8_decode_utf8(get);
    encode_utf8_valid_utf8(head);
    encode_utf8_decode_utf8(head);
    responses::law_head_reply_is_header_of_get_reply(
        config,
        encode_utf8(get),
        encode_utf8(head),
        site,
    );
}

}
