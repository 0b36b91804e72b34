//! Responses: how every answer is made.

use vstd::prelude::*;
use vstd::utf8::*;
use crate::app::{clone, index, log, objects, parts, summary};
use crate::app::route::{self, Page, RouteView};
use crate::app::session::{self, FileRequestView, SiteView, StepView};
use crate::config::ConfigView;
use crate::git::{reader, refs};
use crate::http::{self, RequestView};
use crate::repo::{self, CandidateView, RootEntryView};
use crate::{html, numbers, text};

verus! {

// ---------------------------------------------------------------------------
// The header ends at the first empty line

/// No line feed is followed by a carriage return.
pub open spec fn no_turn(s: Seq<char>) -> bool {
    forall|i: int| 0 <= i && i + 1 < s.len() && s[i] == '\n' ==> #[trigger] s[i + 1] != '\r'
}

/// No line feed byte is followed by a carriage return byte.
pub open spec fn no_turn_bytes(b: Seq<u8>) -> bool {
    forall|i: int| 0 <= i && i + 1 < b.len() && b[i] == 0x0a ==> #[trigger] b[i + 1] != 0x0d
}

/// Two texts after one another turn nowhere when neither does and no line feed
/// and carriage return meet between them.
proof fn lemma_no_turn_append(a: Seq<char>, b: Seq<char>)
    requires
        no_turn(a),
        no_turn(b),
        a.len() > 0 && b.len() > 0 ==> a.last() != '\n' || b[0] != '\r',
    ensures
        no_turn(a + b),
{
    let s = a + b;
    assert forall|i: int| 0 <= i && i + 1 < s.len() && s[i] == '\n' implies #[trigger] s[i + 1]
        != '\r' by {
        if i + 1 < a.len() {
            assert(s[i] == a[i] && s[i + 1] == a[i + 1]);
        } else if i >= a.len() {
            assert(s[i] == b[i - a.len()]);
            assert(s[i + 1] == b[i - a.len() + 1]);
        } else {
            assert(s[i] == a.last());
            assert(s[i + 1] == b[0]);
        }
    }
}

/// A text that turns nowhere has bytes that turn nowhere.
proof fn lemma_no_turn_encoded(s: Seq<char>)
    requires
        no_turn(s),
    ensures
        no_turn_bytes(encode_utf8(s)),
    decreases s.len(),
{
    if s.len() > 0 {
        let rest = s.drop_first();
        let e = encode_scalar(s[0] as u32);
        let more = encode_utf8(rest);
        let b = encode_utf8(s);
        text::lemma_scalar_bytes(s[0]);
        assert forall|i: int|
            0 <= i && i + 1 < rest.len() && rest[i] == '\n' implies #[trigger] rest[i + 1]
            != '\r' by {
            assert(rest[i] == s[i + 1]);
            assert(rest[i + 1] == s[i + 1 + 1]);
        }
        lemma_no_turn_encoded(rest);
        assert(b == e + more);
        assert forall|i: int| 0 <= i && i + 1 < b.len() && b[i] == 0x0a implies #[trigger] b[i + 1]
            != 0x0d by {
            if i >= e.len() {
                assert(b[i] == more[i - e.len()]);
                assert(b[i + 1] == more[i - e.len() + 1]);
            } else {
                assert(b[i] == e[i]);
                assert(e.len() == 1);
                assert(s[0] == '\n');
                assert(b[i + 1] == more[0]);
                if rest.len() > 0 {
                    text::lemma_scalar_bytes(rest[0]);
                    assert(more[0] == encode_scalar(rest[0] as u32)[0]);
                    assert(s[i + 1] == rest[0]);
                }
            }
        }
    }
}

/// A number in decimal holds digits only.
proof fn lemma_decimal_digits(n: nat)
    ensures
        numbers::decimal(n).len() > 0,
        forall|i: int|
            0 <= i < numbers::decimal(n).len() ==> text::is_digit(
                #[trigger] numbers::decimal(n)[i],
            ),
    decreases n,
{
    if n >= 10 {
        lemma_decimal_digits(n / 10);
    }
}

/// A text without line feeds turns nowhere.
proof fn lemma_no_turn_plain(s: Seq<char>)
    requires
        !s.contains('\n'),
    ensures
        no_turn(s),
{
    assert forall|i: int| 0 <= i && i + 1 < s.len() && s[i] == '\n' implies #[trigger] s[i + 1]
        != '\r' by {
        assert(s.contains(s[i]));
    }
}

/// The part of a header before the empty line.
pub open spec fn header_lines(
    status: u16,
    reason: Seq<char>,
    content_type: Seq<char>,
    length: nat,
) -> Seq<char> {
    "HTTP/1.1 "@ + numbers::decimal(status as nat) + " "@ + reason + "\r\nContent-Type: "@
        + content_type + "\r\nContent-Length: "@ + numbers::decimal(length)
        + "\r\nConnection: close\r\n"@ + http::SECURITY_HEADERS@
}

proof fn lemma_literals_turn_nowhere()
    ensures
        no_turn("\r\nContent-Type: "@),
        no_turn("\r\nContent-Length: "@),
        no_turn("\r\nConnection: close\r\n"@),
        no_turn(http::SECURITY_HEADERS@),
        http::SECURITY_HEADERS@.len() > 0,
        http::SECURITY_HEADERS@[0] != '\r',
        "\r\nContent-Type: "@.last() != '\n',
        "\r\nContent-Length: "@.last() != '\n',
        "\r\nContent-Type: "@.len() > 0,
        "\r\nContent-Length: "@.len() > 0,
        !"HTTP/1.1 "@.contains('\n'),
        !" "@.contains('\n'),
{
    reveal_strlit("\r\nContent-Type: ");
    reveal_strlit("\r\nContent-Length: ");
    reveal_strlit("\r\nConnection: close\r\n");
    reveal_strlit("HTTP/1.1 ");
    reveal_strlit(" ");
    reveal_strlit(
        "X-Content-Type-Options: nosniff\r\nContent-Security-Policy: default-src 'none'; style-src 'unsafe-inline'; form-action 'self'; base-uri 'none'; frame-ancestors 'none'\r\nReferrer-Policy: no-referrer\r\nX-Frame-Options: DENY\r\n",
    );
}

proof fn lemma_header_turns_nowhere(
    status: u16,
    reason: Seq<char>,
    content_type: Seq<char>,
    length: nat,
)
    requires
        !reason.contains('\n'),
        !content_type.contains('\n'),
    ensures
        no_turn(header_lines(status, reason, content_type, length)),
{
    lemma_literals_turn_nowhere();
    let code = numbers::decimal(status as nat);
    let size = numbers::decimal(length);
    lemma_decimal_digits(status as nat);
    lemma_decimal_digits(length);
    let first = "HTTP/1.1 "@ + code + " "@ + reason;
    assert forall|i: int| 0 <= i < first.len() implies first[i] != '\n' by {
        let a = "HTTP/1.1 "@;
        let ab = a + code;
        let abc = ab + " "@;
        if i < a.len() {
            assert(first[i] == a[i]);
            assert(a.contains(a[i]));
        } else if i < ab.len() {
            assert(first[i] == code[i - a.len()]);
        } else if i < abc.len() {
            assert(first[i] == " "@[i - ab.len()]);
            assert(" "@.contains(" "@[i - ab.len()]));
        } else {
            assert(first[i] == reason[i - abc.len()]);
            assert(reason.contains(reason[i - abc.len()]));
        }
    }
    lemma_no_turn_plain(first);
    lemma_no_turn_plain(content_type);
    lemma_no_turn_append(first, "\r\nContent-Type: "@);
    let second = first + "\r\nContent-Type: "@;
    assert(second.last() == "\r\nContent-Type: "@.last());
    lemma_no_turn_append(second, content_type);
    let third = second + content_type;
    if content_type.len() > 0 {
        assert(third.last() == content_type.last());
        assert(content_type.contains(content_type.last()));
    } else {
        assert(third =~= second);
    }
    lemma_no_turn_append(third, "\r\nContent-Length: "@);
    let fourth = third + "\r\nContent-Length: "@;
    assert(fourth.last() == "\r\nContent-Length: "@.last());
    lemma_no_turn_plain(size);
    lemma_no_turn_append(fourth, size);
    let fifth = fourth + size;
    assert(fifth.last() == size.last());
    lemma_no_turn_append(fifth, "\r\nConnection: close\r\n"@);
    lemma_no_turn_append(fifth + "\r\nConnection: close\r\n"@, http::SECURITY_HEADERS@);
}

/// The first empty line is where none comes before.
proof fn lemma_blank_is(b: Seq<u8>, from: int, k: int)
    requires
        0 <= from <= k,
        session::blank_at(b, k),
        forall|j: int| from <= j < k ==> !session::blank_at(b, j),
    ensures
        session::blank_from(b, from) == k,
    decreases k - from,
{
    if from < k {
        lemma_blank_is(b, from + 1, k);
    }
}

/// True when `head` is what `whole` holds up to its first empty line, and that
/// line.
pub open spec fn cut_at_empty_line(whole: Seq<u8>, head: Seq<u8>) -> bool {
    let end = session::blank_from(whole, 0);
    session::blank_at(whole, end) && head == whole.take(end + 4)
}

/// An answer to a request for the header alone is the header of the answer to
/// the same request for the whole: the same status, type and length, and no body.
pub proof fn law_head_answer_is_the_header(
    status: u16,
    reason: Seq<char>,
    content_type: Seq<char>,
    body: Seq<u8>,
)
    requires
        !reason.contains('\n'),
        !content_type.contains('\n'),
    ensures
        session::sent(true, http::response_of(status, reason, content_type, body)) == encode_utf8(
            http::head_text(status, reason, content_type, body.len()),
        ),
        session::sent(false, http::response_of(status, reason, content_type, body))
            == encode_utf8(http::head_text(status, reason, content_type, body.len())) + body,
        cut_at_empty_line(
            http::response_of(status, reason, content_type, body),
            encode_utf8(http::head_text(status, reason, content_type, body.len())),
        ),
{
    let lines = header_lines(status, reason, content_type, body.len());
    let head = http::head_text(status, reason, content_type, body.len());
    let all = http::response_of(status, reason, content_type, body);
    lemma_header_turns_nowhere(status, reason, content_type, body.len());
    lemma_no_turn_encoded(lines);
    lemma_security_headers_end();
    reveal_strlit("\r\n");
    let n = lines.len() as int;
    let start = lines.take(n - 2);
    assert(lines =~= start + "\r\n"@) by {
        let s = http::SECURITY_HEADERS@;
        assert(lines[n - 2] == s[s.len() - 2]);
        assert(lines[n - 1] == s[s.len() - 1]);
    }
    assert(head == lines + "\r\n"@);
    text::lemma_encode_append(lines, "\r\n"@);
    text::lemma_encode_append(start, "\r\n"@);
    lemma_encode_line_end();
    let end = seq![0x0du8, 0x0au8];
    let e = encode_utf8(lines);
    assert(e == encode_utf8(start) + end);
    let k = e.len() - 2;
    assert(all =~= encode_utf8(start) + end + end + body);
    assert(session::blank_at(all, k));
    assert forall|j: int| 0 <= j < k implies !session::blank_at(all, j) by {
        assert(all[j + 1] == e[j + 1]);
        assert(all[j + 1 + 1] == e[j + 1 + 1]);
    }
    lemma_blank_is(all, 0, k);
    assert(session::without_body(all) =~= encode_utf8(start) + end + end);
    assert(all.take(k + 4) =~= encode_utf8(start) + end + end);
}

proof fn lemma_security_headers_end()
    ensures
        http::SECURITY_HEADERS@.len() >= 2,
        http::SECURITY_HEADERS@[http::SECURITY_HEADERS@.len() - 2] == '\r',
        http::SECURITY_HEADERS@[http::SECURITY_HEADERS@.len() - 1] == '\n',
{
    reveal_strlit(
        "X-Content-Type-Options: nosniff\r\nContent-Security-Policy: default-src 'none'; style-src 'unsafe-inline'; form-action 'self'; base-uri 'none'; frame-ancestors 'none'\r\nReferrer-Policy: no-referrer\r\nX-Frame-Options: DENY\r\n",
    );
}

proof fn lemma_encode_line_end()
    ensures
        encode_utf8("\r\n"@) == seq![0x0du8, 0x0au8],
{
    reveal_strlit("\r\n");
    assert("\r\n"@ =~= seq![0x0du8 as char] + seq![0x0au8 as char]);
    text::lemma_encode_append(seq![0x0du8 as char], seq![0x0au8 as char]);
    text::lemma_encode_ascii(0x0d);
    text::lemma_encode_ascii(0x0a);
    assert(seq![0x0du8] + seq![0x0au8] =~= seq![0x0du8, 0x0au8]);
}

// ---------------------------------------------------------------------------
// Every answer

/// A response, or its header where that alone is wanted.
pub open spec fn answer_of(
    head_only: bool,
    status: u16,
    reason: Seq<char>,
    content_type: Seq<char>,
    body: Seq<u8>,
) -> Seq<u8> {
    if head_only {
        encode_utf8(http::head_text(status, reason, content_type, body.len()))
    } else {
        http::response_of(status, reason, content_type, body)
    }
}

/// True when `b` is a whole response, or the header of one where that alone is
/// wanted, whose status line and type stand on one line each.
pub open spec fn is_answer(head_only: bool, b: Seq<u8>) -> bool {
    exists|status: u16, reason: Seq<char>, content_type: Seq<char>, body: Seq<u8>|
        !reason.contains('\n') && !content_type.contains('\n') && b == #[trigger] answer_of(
            head_only,
            status,
            reason,
            content_type,
            body,
        )
}

/// True when the security headers stand somewhere in `b`.
pub open spec fn has_security_headers(b: Seq<u8>) -> bool {
    exists|before: Seq<u8>, after: Seq<u8>|
        b == #[trigger] (before + encode_utf8(http::SECURITY_HEADERS@) + after)
}

/// Every response carries the security headers.
pub proof fn law_answers_carry_security_headers(head_only: bool, b: Seq<u8>)
    requires
        is_answer(head_only, b),
    ensures
        has_security_headers(b),
{
    let (status, reason, content_type, body) = choose|
        status: u16,
        reason: Seq<char>,
        content_type: Seq<char>,
        body: Seq<u8>,
    |
        !reason.contains('\n') && !content_type.contains('\n') && b == #[trigger] answer_of(
            head_only,
            status,
            reason,
            content_type,
            body,
        );
    let start = "HTTP/1.1 "@ + numbers::decimal(status as nat) + " "@ + reason
        + "\r\nContent-Type: "@ + content_type + "\r\nContent-Length: "@ + numbers::decimal(
        body.len(),
    ) + "\r\nConnection: close\r\n"@;
    let headers = http::SECURITY_HEADERS@;
    text::lemma_encode_append(start + headers, "\r\n"@);
    text::lemma_encode_append(start, headers);
    let before = encode_utf8(start);
    let middle = encode_utf8(headers);
    let end = encode_utf8("\r\n"@);
    let head = encode_utf8(http::head_text(status, reason, content_type, body.len()));
    assert(head == before + middle + end);
    if head_only {
        assert(b == before + middle + end);
    } else {
        assert(b =~= before + middle + (end + body));
    }
}

proof fn lemma_plain_is_answer(head_only: bool, status: u16, reason: Seq<char>, body: Seq<char>)
    requires
        !reason.contains('\n'),
    ensures
        is_answer(head_only, session::sent(head_only, clone::plain_response(status, reason, body))),
{
    lemma_types_are_plain();
    lemma_response_is_answer(head_only, status, reason, clone::PLAIN@, encode_utf8(body));
}

proof fn lemma_types_are_plain()
    ensures
        !clone::PLAIN@.contains('\n'),
        !"text/html; charset=utf-8"@.contains('\n'),
        !"application/octet-stream"@.contains('\n'),
        !"OK"@.contains('\n'),
        !"Not Found"@.contains('\n'),
        !"Bad Request"@.contains('\n'),
        !"Method Not Allowed"@.contains('\n'),
        !"Forbidden"@.contains('\n'),
        !"Payload Too Large"@.contains('\n'),
{
    reveal_strlit("text/plain; charset=utf-8");
    reveal_strlit("text/html; charset=utf-8");
    reveal_strlit("application/octet-stream");
    reveal_strlit("OK");
    reveal_strlit("Not Found");
    reveal_strlit("Bad Request");
    reveal_strlit("Method Not Allowed");
    reveal_strlit("Forbidden");
    reveal_strlit("Payload Too Large");
}

proof fn lemma_response_is_answer(
    head_only: bool,
    status: u16,
    reason: Seq<char>,
    content_type: Seq<char>,
    body: Seq<u8>,
)
    requires
        !reason.contains('\n'),
        !content_type.contains('\n'),
    ensures
        is_answer(
            head_only,
            session::sent(head_only, http::response_of(status, reason, content_type, body)),
        ),
{
    law_head_answer_is_the_header(status, reason, content_type, body);
    let whole = http::response_of(status, reason, content_type, body);
    assert(session::sent(head_only, whole) == answer_of(
        head_only,
        status,
        reason,
        content_type,
        body,
    ));
}

proof fn lemma_page_is_answer(
    head_only: bool,
    status: u16,
    reason: Seq<char>,
    title: Seq<char>,
    body: Seq<char>,
)
    requires
        !reason.contains('\n'),
    ensures
        is_answer(
            head_only,
            session::sent(
                head_only,
                encode_utf8(parts::page_response(status, reason, title, body)),
            ),
        ),
{
    lemma_types_are_plain();
    let page = html::page_text(title, body);
    let head = http::head_text(
        status,
        reason,
        "text/html; charset=utf-8"@,
        encode_utf8(page).len(),
    );
    text::lemma_encode_append(head, page);
    lemma_response_is_answer(
        head_only,
        status,
        reason,
        "text/html; charset=utf-8"@,
        encode_utf8(page),
    );
}

/// True when a step that sends something sends an answer.
pub open spec fn sends_answer(head_only: bool, step: StepView) -> bool {
    step matches StepView::Send(b) ==> is_answer(head_only, b)
}

/// True when the bytes received ask for the header alone.
pub open spec fn asks_for_head(input: Seq<u8>) -> bool {
    http::request_of(text::lossy(input)) matches Some(req) && session::is_head(req)
}

/// What is sent right after a request was received is an answer: also where it
/// is refused.
pub proof fn law_first_step_sends_answer(config: ConfigView, input: Seq<u8>)
    ensures
        sends_answer(asks_for_head(input), session::received(config, input)),
{
    lemma_types_are_plain();
    match http::request_of(text::lossy(input)) {
        None => lemma_plain_is_answer(false, 400, "Bad Request"@, "bad request"@),
        Some(req) => {
            lemma_plain_is_answer(false, 405, "Method Not Allowed"@, "method not allowed"@);
            let head_only = session::is_head(req);
            lemma_page_is_answer(
                head_only,
                404,
                "Not Found"@,
                "not found"@,
                "<h1>not found</h1>"@,
            );
            lemma_page_is_answer(
                head_only,
                400,
                "Bad Request"@,
                "missing repository"@,
                "<h1>missing repository</h1>"@,
            );
            lemma_page_is_answer(
                head_only,
                404,
                "Not Found"@,
                "repository not found"@,
                "<h1>repository not found</h1>"@,
            );
        },
    }
}

/// The list of repositories is sent as an answer.
pub proof fn law_index_is_answer(
    config: ConfigView,
    req: RequestView,
    entries: Option<Seq<RootEntryView>>,
)
    ensures
        sends_answer(session::is_head(req), session::after_list(config, req, entries)),
{
    lemma_types_are_plain();
    let repos = match entries {
        Some(v) => repo::repos_in(config.repo_root, v),
        None => Seq::empty(),
    };
    assert(is_page(index::index_page(repos, req)));
    lemma_is_page_answer(session::is_head(req), index::index_page(repos, req));
}

/// True when a page's text is that of a page response with a plain reason.
pub open spec fn is_page(text: Seq<char>) -> bool {
    exists|status: u16, reason: Seq<char>, title: Seq<char>, body: Seq<char>|
        !reason.contains('\n') && text == #[trigger] parts::page_response(
            status,
            reason,
            title,
            body,
        )
}

proof fn lemma_is_page_answer(head_only: bool, page: Seq<char>)
    requires
        is_page(page),
    ensures
        is_answer(head_only, session::sent(head_only, encode_utf8(page))),
{
    let (status, reason, title, body) = choose|
        status: u16,
        reason: Seq<char>,
        title: Seq<char>,
        body: Seq<char>,
    |
        !reason.contains('\n') && page == #[trigger] parts::page_response(
            status,
            reason,
            title,
            body,
        );
    lemma_page_is_answer(head_only, status, reason, title, body);
}

/// The pages of a repository are answers.
proof fn lemma_repo_answer(config: ConfigView, repo: repo::RepoView, page: Page, req: RequestView)
    ensures
        is_answer(
            session::is_head(req),
            session::sent(session::is_head(req), session::repo_answer(config, repo, page, req)),
        ),
{
    lemma_types_are_plain();
    let h = session::is_head(req);
    if page == Page::Head {
        lemma_plain_is_answer(h, 404, "Not Found"@, "not found"@);
        match repo.files.head {
            Some(bytes) => lemma_response_is_answer(h, 200, "OK"@, clone::PLAIN@, bytes),
            None => {},
        }
    } else if page == Page::InfoRefs {
        let body = reader::info_lines(refs::listing(refs::all_refs(repo.files)));
        lemma_response_is_answer(h, 200, "OK"@, clone::PLAIN@, body);
    } else if page == Page::InfoPacks {
        let body = clone::pack_lines(clone::pack_names(repo.files.packs));
        lemma_response_is_answer(h, 200, "OK"@, clone::PLAIN@, body);
    } else {
        let shown = match page {
            Page::Summary => summary::summary_page(config.public_base, repo, req),
            Page::Log => log::log_page(repo),
            Page::Tree => objects::tree_page(repo, req),
            Page::Blob => objects::blob_page(repo, req),
            Page::Commit => objects::commit_page(repo, req),
            Page::Diff => objects::diff_page(repo, req),
            Page::Search => log::search_page(repo, req),
            _ => session::not_found_page(),
        };
        assert(is_page(shown));
        lemma_is_page_answer(h, shown);
    }
}

/// What is sent once the repository has been looked for is an answer.
pub proof fn law_repository_step_sends_answer(
    config: ConfigView,
    req: RequestView,
    candidate: CandidateView,
)
    ensures
        sends_answer(session::is_head(req), session::after_find(config, req, candidate)),
{
    lemma_types_are_plain();
    let h = session::is_head(req);
    lemma_page_is_answer(h, 404, "Not Found"@, "not found"@, "<h1>not found</h1>"@);
    lemma_page_is_answer(
        h,
        404,
        "Not Found"@,
        "repository not found"@,
        "<h1>repository not found</h1>"@,
    );
    lemma_plain_is_answer(h, 400, "Bad Request"@, "bad path"@);
    match route::route_of(req.path) {
        RouteView::Repository { name, rest } => match repo::repo_named(
            config.repo_root,
            name,
            candidate,
        ) {
            Some(repo) => lemma_repo_answer(config, repo, route::page_of(rest), req),
            None => {},
        },
        _ => {},
    }
}

/// What is sent in the course of serving a file is an answer.
pub proof fn law_file_steps_send_answers(
    config: ConfigView,
    file: FileRequestView,
    canonical: Option<Seq<Seq<char>>>,
    length: Option<u64>,
    contents: Option<Seq<u8>>,
)
    ensures
        sends_answer(file.head_only, session::after_resolve(file, canonical)),
        sends_answer(file.head_only, session::after_measure(config, file, length)),
        sends_answer(file.head_only, session::after_read(file, contents)),
{
    lemma_types_are_plain();
    let h = file.head_only;
    lemma_plain_is_answer(h, 404, "Not Found"@, "not found"@);
    lemma_plain_is_answer(h, 403, "Forbidden"@, "forbidden"@);
    lemma_plain_is_answer(h, 413, "Payload Too Large"@, "too large"@);
    match contents {
        Some(bytes) => lemma_response_is_answer(
            h,
            200,
            "OK"@,
            clone::file_type(file.clone_path),
            bytes,
        ),
        None => {},
    }
}

/// Whatever is received, and whatever the file system holds, what is sent back is
/// an answer: the header alone where that was asked for, else a whole response,
/// with a status line and the security headers.
pub proof fn law_every_reply_is_an_answer(config: ConfigView, input: Seq<u8>, site: SiteView)
    requires
        input.len() > 0,
    ensures
        session::last_step(config, input, site) matches StepView::Send(b) && is_answer(
            asks_for_head(input),
            b,
        ) && has_security_headers(b),
{
    law_first_step_sends_answer(config, input);
    let first = session::received(config, input);
    match first {
        StepView::List(req) => law_index_is_answer(config, req, site.entries),
        StepView::Find(req, _) => {
            law_repository_step_sends_answer(config, req, site.candidate);
            match session::after_find(config, req, site.candidate) {
                StepView::Resolve(file) => {
                    law_file_steps_send_answers(
                        config,
                        file,
                        site.canonical,
                        site.length,
                        site.contents,
                    );
                    match session::after_resolve(file, site.canonical) {
                        StepView::Measure(resolved) => law_file_steps_send_answers(
                            config,
                            resolved,
                            site.canonical,
                            site.length,
                            site.contents,
                        ),
                        _ => {},
                    }
                },
                _ => {},
            }
        },
        _ => {},
    }
    match session::last_step(config, input, site) {
        StepView::Send(b) => law_answers_carry_security_headers(asks_for_head(input), b),
        _ => {},
    }
}

/// The method of a request does not count for what is shown of a repository.
proof fn lemma_method_changes_no_page(
    config: ConfigView,
    repo: repo::RepoView,
    page: Page,
    a: RequestView,
    b: RequestView,
)
    requires
        b == (RequestView { method: b.method, ..a }),
    ensures
        session::repo_answer(config, repo, page, a) == session::repo_answer(config, repo, page, b),
{
}

/// A request for the header alone is answered with the header of what the same
/// request for the whole is answered with, and asks for the same to be looked at.
pub proof fn law_head_request_mirrors_get(
    config: ConfigView,
    get: RequestView,
    head: RequestView,
    entries: Option<Seq<RootEntryView>>,
    candidate: CandidateView,
)
    requires
        get.method == "GET"@,
        head == (RequestView { method: "HEAD"@, ..get }),
    ensures
        session::routed(config, get) matches StepView::Send(b) ==> session::routed(config, head)
            == StepView::Send(session::without_body(b)),
        session::routed(config, get) matches StepView::Find(_, path) ==> session::routed(
            config,
            head,
        ) == StepView::Find(head, path),
        session::routed(config, get) is List ==> session::routed(config, head) is List,
        session::after_list(config, get, entries) matches StepView::Send(b)
            && session::after_list(config, head, entries) == StepView::Send(
            session::without_body(b),
        ),
        session::after_find(config, get, candidate) matches StepView::Send(b)
            ==> session::after_find(config, head, candidate) == StepView::Send(
            session::without_body(b),
        ),
        session::after_find(config, get, candidate) matches StepView::Resolve(file)
            ==> session::after_find(config, head, candidate) == StepView::Resolve(
            FileRequestView { head_only: true, ..file },
        ),
{
    reveal_strlit("GET");
    reveal_strlit("HEAD");
    assert("GET"@.len() != "HEAD"@.len());
    match route::route_of(get.path) {
        RouteView::Repository { name, rest } => match repo::repo_named(
            config.repo_root,
            name,
            candidate,
        ) {
            Some(found) => {
                lemma_method_changes_no_page(config, found, route::page_of(rest), get, head);
            },
            None => {},
        },
        _ => {},
    }
}

/// Serving a file goes the same way for a request for the header alone, and what
/// is sent is the header of what the request for the whole is sent.
pub proof fn law_head_file_steps_mirror_get(
    config: ConfigView,
    get: FileRequestView,
    head: FileRequestView,
    canonical: Option<Seq<Seq<char>>>,
    length: Option<u64>,
    contents: Option<Seq<u8>>,
)
    requires
        !get.head_only,
        head == (FileRequestView { head_only: true, ..get }),
    ensures
        session::after_resolve(get, canonical) matches StepView::Send(b) ==> session::after_resolve(
            head,
            canonical,
        ) == StepView::Send(session::without_body(b)),
        session::after_resolve(get, canonical) matches StepView::Measure(file)
            ==> session::after_resolve(head, canonical) == StepView::Measure(
            FileRequestView { head_only: true, ..file },
        ) && !file.head_only,
        session::after_measure(config, get, length) matches StepView::Send(b)
            ==> session::after_measure(config, head, length) == StepView::Send(
            session::without_body(b),
        ),
        session::after_measure(config, get, length) matches StepView::Read(file)
            ==> session::after_measure(config, head, length) == StepView::Read(
            FileRequestView { head_only: true, ..file },
        ) && !file.head_only,
        session::after_read(get, contents) matches StepView::Send(b) && session::after_read(
            head,
            contents,
        ) == StepView::Send(session::without_body(b)),
{
}

/// True when `whole` is a response and `head` is its header: the same status,
/// type and length, and no body.
pub open spec fn is_header_of(head: Seq<u8>, whole: Seq<u8>) -> bool {
    exists|status: u16, reason: Seq<char>, content_type: Seq<char>, body: Seq<u8>|
        #![trigger http::response_of(status, reason, content_type, body)]
        {
            &&& whole == http::response_of(status, reason, content_type, body)
            &&& head == encode_utf8(http::head_text(status, reason, content_type, body.len()))
        }
}

/// Two connections that send one request, the one for the whole and the other for
/// the header alone, and find the same files: the second is sent the header of
/// what the first is sent, up to and with the first empty line.
pub proof fn law_head_reply_is_header_of_get_reply(
    config: ConfigView,
    get_input: Seq<u8>,
    head_input: Seq<u8>,
    site: SiteView,
)
    requires
        http::request_of(text::lossy(get_input)) matches Some(get) && get.method == "GET"@
            && http::request_of(text::lossy(head_input)) == Some(
            RequestView { method: "HEAD"@, ..get },
        ),
    ensures
        session::last_step(config, get_input, site) matches StepView::Send(whole)
            && session::last_step(config, head_input, site) matches StepView::Send(head) && head
            == session::without_body(whole) && cut_at_empty_line(whole, head) && is_header_of(
            head,
            whole,
        ),
{
    reveal_strlit("GET");
    reveal_strlit("HEAD");
    assert("GET"@.len() != "HEAD"@.len());
    let get = http::request_of(text::lossy(get_input))->0;
    let head = RequestView { method: "HEAD"@, ..get };
    lemma_request_is_not_empty(get_input);
    lemma_request_is_not_empty(head_input);
    law_head_request_mirrors_get(config, get, head, site.entries, site.candidate);
    match session::after_find(config, get, site.candidate) {
        StepView::Resolve(file) => {
            law_head_file_steps_mirror_get(
                config,
                file,
                FileRequestView { head_only: true, ..file },
                site.canonical,
                site.length,
                site.contents,
            );
            match session::after_resolve(file, site.canonical) {
                StepView::Measure(resolved) => law_head_file_steps_mirror_get(
                    config,
                    resolved,
                    FileRequestView { head_only: true, ..resolved },
                    site.canonical,
                    site.length,
                    site.contents,
                ),
                _ => {},
            }
        },
        _ => {},
    }
    law_every_reply_is_an_answer(config, get_input, site);
    match session::last_step(config, get_input, site) {
        StepView::Send(whole) => lemma_header_of_answer(whole),
        _ => {},
    }
}

proof fn lemma_request_is_not_empty(input: Seq<u8>)
    requires
        http::request_of(text::lossy(input)) is Some,
    ensures
        input.len() > 0,
{
    if input.len() == 0 {
        assert(input =~= encode_utf8(Seq::empty()));
        encode_utf8_valid_utf8(Seq::empty());
        encode_utf8_decode_utf8(Seq::empty());
    }
}

proof fn lemma_header_of_answer(whole: Seq<u8>)
    requires
        is_answer(false, whole),
    ensures
        cut_at_empty_line(whole, session::without_body(whole)),
        is_header_of(session::without_body(whole), whole),
{
    let (status, reason, content_type, body) = choose|
        status: u16,
        reason: Seq<char>,
        content_type: Seq<char>,
        body: Seq<u8>,
    |
        !reason.contains('\n') && !content_type.contains('\n') && whole == #[trigger] answer_of(
            false,
            status,
            reason,
            content_type,
            body,
        );
    law_head_answer_is_the_header(status, reason, content_type, body);
}

}
