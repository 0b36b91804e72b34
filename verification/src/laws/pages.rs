//! Pages: what a page shows is what the repository holds.

use vstd::prelude::*;
use crate::app::{log, parts};
use crate::git::commit::{self, CommitView};
use crate::git::reader;
use crate::http::RequestView;
use crate::laws::{links, refs, texts};
use crate::repo::{FilesView, RepoView};
use crate::text::{self, Class};
use crate::{html, numbers};
use vstd::utf8::*;

verus! {

// ---------------------------------------------------------------------------
// Pages and tables

/// An HTML document with that title, style and body.
pub open spec fn document(title: Seq<char>, style: Seq<char>, body: Seq<char>) -> Seq<char> {
    "<!doctype html><html><head><meta charset=\"utf-8\"><meta name=\"viewport\" content=\"width=device-width,initial-scale=1\"><title>"@
        + html::escaped_text(title) + "</title><style>"@ + style + "</style></head><body>"@ + body
        + "</body></html>"@
}

/// The header of a response: its status, and the type and length of what follows.
pub open spec fn header(
    status: Seq<char>,
    kind: Seq<char>,
    length: nat,
    more: Seq<char>,
) -> Seq<char> {
    "HTTP/1.1 "@ + status + "\r\nContent-Type: "@ + kind + "\r\nContent-Length: "@
        + numbers::decimal(length) + "\r\n"@ + more + "\r\n"@
}

/// True when a response has that status, and shows that body as an HTML page with
/// that title.
pub open spec fn shows(
    response: Seq<char>,
    status: Seq<char>,
    title: Seq<char>,
    body: Seq<char>,
) -> bool {
    exists|more: Seq<char>, style: Seq<char>|
        response == #[trigger] header(
            status,
            "text/html; charset=utf-8"@,
            encode_utf8(document(title, style, body)).len(),
            more,
        ) + #[trigger] document(title, style, body)
}

/// A page's response has the status that it is made with, and shows the title and
/// the body.
pub proof fn law_page_shows_its_body(
    status: u16,
    reason: Seq<char>,
    title: Seq<char>,
    body: Seq<char>,
)
    ensures
        shows(
            parts::page_response(status, reason, title, body),
            numbers::decimal(status as nat) + " "@ + reason,
            title,
            body,
        ),
{
    let code = numbers::decimal(status as nat) + " "@ + reason;
    let whole = document(title, html::CSS@, body);
    assert(html::page_text(title, body) == whole);
    let length = encode_utf8(whole).len();
    lemma_header(status, reason, "text/html; charset=utf-8"@, length);
    let more = "Connection: close\r\n"@ + crate::http::SECURITY_HEADERS@;
    let response = parts::page_response(status, reason, title, body);
    assert(response == header(code, "text/html; charset=utf-8"@, length, more) + whole);
}

proof fn lemma_header(status: u16, reason: Seq<char>, kind: Seq<char>, length: nat)
    ensures
        crate::http::head_text(status, reason, kind, length) == header(
            numbers::decimal(status as nat) + " "@ + reason,
            kind,
            length,
            "Connection: close\r\n"@ + crate::http::SECURITY_HEADERS@,
        ),
{
    reveal_strlit("\r\n");
    reveal_strlit("Connection: close\r\n");
    reveal_strlit("\r\nConnection: close\r\n");
    assert("\r\nConnection: close\r\n"@ =~= "\r\n"@ + "Connection: close\r\n"@);
    assert(crate::http::head_text(status, reason, kind, length) =~= header(
        numbers::decimal(status as nat) + " "@ + reason,
        kind,
        length,
        "Connection: close\r\n"@ + crate::http::SECURITY_HEADERS@,
    ));
}

/// True when a response has that status, and carries bytes of that type.
pub open spec fn carries(
    response: Seq<u8>,
    status: Seq<char>,
    kind: Seq<char>,
    bytes: Seq<u8>,
) -> bool {
    exists|more: Seq<char>|
        response == encode_utf8(#[trigger] header(status, kind, bytes.len(), more)) + bytes
}

/// A response of bytes has the status and the type that it is made with, and
/// carries the bytes as they are.
pub proof fn law_response_carries_its_bytes(
    status: u16,
    reason: Seq<char>,
    kind: Seq<char>,
    bytes: Seq<u8>,
)
    ensures
        carries(
            crate::http::response_of(status, reason, kind, bytes),
            numbers::decimal(status as nat) + " "@ + reason,
            kind,
            bytes,
        ),
{
    lemma_header(status, reason, kind, bytes.len());
}

/// The status of what is found.
pub proof fn lemma_found(kind: Seq<char>, bytes: Seq<u8>)
    ensures
        carries(crate::http::response_of(200, "OK"@, kind, bytes), "200 OK"@, kind, bytes),
{
    reveal_strlit("200 OK");
    reveal_strlit(" ");
    reveal_strlit("OK");
    reveal_with_fuel(numbers::decimal, 4);
    law_response_carries_its_bytes(200, "OK"@, kind, bytes);
    assert(numbers::decimal(200) + " "@ + "OK"@ =~= "200 OK"@);
}

/// The status of a page that is found.
pub proof fn lemma_ok(title: Seq<char>, body: Seq<char>)
    ensures
        shows(parts::page_response(200, "OK"@, title, body), "200 OK"@, title, body),
{
    reveal_strlit("200 OK");
    reveal_strlit(" ");
    reveal_strlit("OK");
    reveal_with_fuel(numbers::decimal, 4);
    law_page_shows_its_body(200, "OK"@, title, body);
    assert(numbers::decimal(200) + " "@ + "OK"@ =~= "200 OK"@);
}

/// The status of a page that is refused.
pub proof fn lemma_bad(title: Seq<char>, body: Seq<char>)
    ensures
        shows(
            parts::page_response(400, "Bad Request"@, title, body),
            "400 Bad Request"@,
            title,
            body,
        ),
{
    reveal_strlit("400 Bad Request");
    reveal_strlit(" ");
    reveal_strlit("Bad Request");
    reveal_with_fuel(numbers::decimal, 4);
    law_page_shows_its_body(400, "Bad Request"@, title, body);
    assert(numbers::decimal(400) + " "@ + "Bad Request"@ =~= "400 Bad Request"@);
}

/// The status of a page that is not found.
pub proof fn lemma_missing(title: Seq<char>, body: Seq<char>)
    ensures
        shows(
            parts::page_response(404, "Not Found"@, title, body),
            "404 Not Found"@,
            title,
            body,
        ),
{
    reveal_strlit("404 Not Found");
    reveal_strlit(" ");
    reveal_strlit("Not Found");
    reveal_with_fuel(numbers::decimal, 4);
    law_page_shows_its_body(404, "Not Found"@, title, body);
    assert(numbers::decimal(404) + " "@ + "Not Found"@ =~= "404 Not Found"@);
}

/// Texts after one another.
pub open spec fn concat(list: Seq<Seq<char>>) -> Seq<char>
    decreases list.len(),
{
    if list.len() == 0 {
        Seq::empty()
    } else {
        concat(list.drop_last()) + list.last()
    }
}

/// A cell of a table.
pub open spec fn cell(s: Seq<char>) -> Seq<char> {
    "<td>"@ + s + "</td>"@
}

/// A cell of a table in a faint color.
pub open spec fn faint(s: Seq<char>) -> Seq<char> {
    "<td class=\"muted\">"@ + s + "</td>"@
}

/// A row of a table.
pub open spec fn row(cells: Seq<Seq<char>>) -> Seq<char> {
    "<tr>"@ + concat(cells) + "</tr>"@
}

/// A link: where it leads to, and what it shows.
pub open spec fn link(target: Seq<char>, label: Seq<char>) -> Seq<char> {
    "<a href=\""@ + target + "\">"@ + html::escaped_text(label) + "</a>"@
}

/// Where a commit of a repository is shown.
pub open spec fn commit_target(name: Seq<char>, id: Seq<char>) -> Seq<char> {
    "/repo/"@ + html::path_encoded(name) + "/commit?id="@ + id
}

/// What is shown of a time.
pub open spec fn shown_time(time: i64) -> Seq<char> {
    html::escaped_text(numbers::signed_decimal(time as int))
}

/// The first eight digits of an id are its short form.
pub proof fn law_short_form_of_id(id: Seq<char>)
    requires
        texts::is_id(id),
    ensures
        commit::short(id) == id.take(8),
{
    let start = id.take(8);
    let rest = id.skip(8);
    assert(id =~= start + rest);
    text::lemma_encode_append(start, rest);
    lemma_ascii(start);
    lemma_ascii(rest);
    let b = encode_utf8(id);
    assert(b.take(8) =~= encode_utf8(start));
    encode_utf8_decode_utf8(start);
    encode_utf8_valid_utf8(start);
    encode_utf8_valid_utf8(id);
    assert(b[8] == encode_utf8(rest)[0]);
    assert(b[8] < 0x80);
    is_char_boundary_iff_not_is_continuation_byte(b, 8);
    assert(!is_continuation_byte(b[8])) by {
        let x = b[8];
        assert(x & 0xc0 != 0x80) by (bit_vector)
            requires
                x < 0x80,
        ;
    }
}

/// A text of fewer than eight characters is its own short form.
pub proof fn law_short_text_is_kept(s: Seq<char>)
    requires
        s.len() < 8,
        forall|i: int| 0 <= i < s.len() ==> (#[trigger] s[i] as u32) < 0x80,
    ensures
        commit::short(s) == s,
{
    lemma_ascii(s);
}

proof fn lemma_ascii_one(c: char)
    requires
        (c as u32) < 0x80,
    ensures
        encode_utf8(seq![c]) == seq![(c as u32) as u8],
{
    text::lemma_encode_ascii((c as u32) as u8);
    assert(((c as u32) as u8) as char == c);
}

pub proof fn lemma_ascii(s: Seq<char>)
    requires
        forall|i: int| 0 <= i < s.len() ==> (#[trigger] s[i] as u32) < 0x80,
    ensures
        encode_utf8(s).len() == s.len(),
        forall|i: int| 0 <= i < s.len() ==> (#[trigger] encode_utf8(s)[i]) < 0x80,
    decreases s.len(),
{
    if s.len() > 0 {
        let rest = s.drop_first();
        let first = seq![s[0]];
        assert(s =~= first + rest);
        lemma_ascii(rest);
        text::lemma_encode_append(first, rest);
        lemma_ascii_one(s[0]);
        assert(encode_utf8(s) =~= encode_utf8(first) + encode_utf8(rest));
        assert forall|i: int| 0 <= i < s.len() implies (#[trigger] encode_utf8(s)[i]) < 0x80 by {
            if i > 0 {
                assert(encode_utf8(s)[i] == encode_utf8(rest)[i - 1]);
            }
        }
    }
}

// ---------------------------------------------------------------------------
// History

/// The revision at which the commit with number `k` of a chain is looked for:
/// HEAD's for the first, and its child's first parent for every other.
pub open spec fn chain_rev(head: Seq<char>, chain: Seq<CommitView>, k: int) -> Seq<char> {
    if k <= 0 {
        head
    } else {
        chain[k - 1].parents[0]
    }
}

/// True when the commits follow one another along first parents, from the one that
/// HEAD stands for.
pub open spec fn is_chain(files: FilesView, head: Seq<char>, chain: Seq<CommitView>) -> bool {
    &&& reader::rev_target(files, "HEAD"@) == Some(head)
    &&& chain.len() > 0
    &&& forall|k: int|
        0 <= k < chain.len() ==> reader::commit_at(files, chain_rev(head, chain, k)) == Some(
            #[trigger] chain[k],
        )
    &&& forall|k: int| 0 <= k < chain.len() - 1 ==> (#[trigger] chain[k]).parents.len() > 0
    &&& forall|i: int, j: int|
        0 <= i < j < chain.len() ==> #[trigger] chain_rev(head, chain, i) != #[trigger] chain_rev(
            head,
            chain,
            j,
        )
}

/// True when a chain is complete, or has that many commits: it is complete when its
/// last commit has no parents, or a first parent that cannot be read or was met
/// before.
pub open spec fn goes_far(
    files: FilesView,
    head: Seq<char>,
    chain: Seq<CommitView>,
    limit: nat,
) -> bool {
    ||| chain.last().parents.len() == 0
    ||| chain.len() >= limit
    ||| reader::commit_at(files, chain.last().parents[0]) is None
    ||| exists|i: int|
        0 <= i < chain.len() && #[trigger] chain_rev(head, chain, i) == chain.last().parents[0]
}

/// The first commits of a chain, or all of them.
pub open spec fn first_of_chain(chain: Seq<CommitView>, limit: nat) -> Seq<CommitView> {
    if chain.len() <= limit {
        chain
    } else {
        chain.take(limit as int)
    }
}

#[verifier::spinoff_prover]
#[verifier::rlimit(40)]
proof fn lemma_walk(
    files: FilesView,
    head: Seq<char>,
    chain: Seq<CommitView>,
    k: int,
    left: nat,
)
    requires
        is_chain(files, head, chain),
        0 <= k < chain.len(),
        goes_far(files, head, chain, (k + left) as nat),
    ensures
        reader::first_parents(
            files,
            chain_rev(head, chain, k),
            Seq::new(k as nat, |i: int| chain_rev(head, chain, i)),
            left,
        ) == first_of_chain(chain.skip(k), left),
    decreases left,
{
    let seen = Seq::new(k as nat, |i: int| chain_rev(head, chain, i));
    let rev = chain_rev(head, chain, k);
    let walk = reader::first_parents(files, rev, seen, left);
    let rest = chain.skip(k);
    if left == 0 {
        assert(rest.take(0) =~= walk);
    } else {
        assert(!seen.contains(rev)) by {
            if seen.contains(rev) {
                let i = choose|i: int| 0 <= i < seen.len() && seen[i] == rev;
                assert(chain_rev(head, chain, i) != chain_rev(head, chain, k));
            }
        }
        assert(reader::commit_at(files, rev) == Some(chain[k]));
        if chain[k].parents.len() == 0 {
            assert(k == chain.len() - 1);
            assert(rest =~= seq![chain[k]]);
            assert(walk == seq![chain[k]]);
        } else if k == chain.len() - 1 {
            let next = chain[k].parents[0];
            let more = seen.push(rev);
            assert(rest =~= seq![chain[k]]);
            if left > 1 && reader::commit_at(files, next) is Some {
                let i = choose|i: int|
                    0 <= i < chain.len() && #[trigger] chain_rev(head, chain, i) == next;
                assert(more[i] == next);
            }
            assert(reader::first_parents(files, next, more, (left - 1) as nat) =~= Seq::empty());
            assert(walk =~= seq![chain[k]]);
        } else {
            lemma_walk(files, head, chain, k + 1, (left - 1) as nat);
            let more = Seq::new((k + 1) as nat, |i: int| chain_rev(head, chain, i));
            assert(seen.push(rev) =~= more);
            assert(chain_rev(head, chain, k + 1) == chain[k].parents[0]);
            assert(walk =~= first_of_chain(rest, left));
        }
    }
}

/// The history is the chain of commits along first parents from HEAD, as far as it
/// was asked for.
pub proof fn law_history_is_the_chain(
    files: FilesView,
    head: Seq<char>,
    chain: Seq<CommitView>,
    limit: nat,
)
    requires
        is_chain(files, head, chain),
        goes_far(files, head, chain, limit),
    ensures
        reader::history(files, limit) == first_of_chain(chain, limit),
{
    lemma_walk(files, head, chain, 0, limit);
    assert(Seq::new(0, |i: int| chain_rev(head, chain, i)) =~= Seq::empty());
    assert(chain.skip(0) =~= chain);
}

/// True when HEAD leads to no commit.
pub open spec fn no_commits(files: FilesView) -> bool {
    reader::rev_target(files, "HEAD"@) matches Some(head) ==> reader::commit_at(files, head) is None
}

/// There is no history where HEAD leads to no commit.
pub proof fn law_no_history_without_head(files: FilesView, limit: nat)
    requires
        no_commits(files),
    ensures
        reader::history(files, limit) == Seq::<CommitView>::empty(),
{
    let none: Seq<Seq<char>> = Seq::empty();
    match reader::rev_target(files, "HEAD"@) {
        None => {},
        Some(head) => {
            assert(reader::first_parents(files, head, none, limit) =~= Seq::empty());
        },
    }
}

/// Every commit of a chain has an id in small letters, whose first eight digits
/// are its short form.
pub proof fn lemma_chain_ids(files: FilesView, head: Seq<char>, chain: Seq<CommitView>, k: int)
    requires
        is_chain(files, head, chain),
        0 <= k < chain.len(),
    ensures
        texts::is_id(chain[k].id),
        chain[k].short_id == chain[k].id.take(8),
        html::escaped_attr(chain[k].id) == chain[k].id,
{
    assert(reader::commit_at(files, chain_rev(head, chain, k)) == Some(chain[k]));
    lemma_commit_id(files, chain_rev(head, chain, k));
}

pub proof fn lemma_commit_id(files: FilesView, rev: Seq<char>)
    requires
        reader::commit_at(files, rev) is Some,
    ensures
        ({
            let c = reader::commit_at(files, rev)->0;
            &&& texts::is_id(c.id)
            &&& c.short_id == c.id.take(8)
            &&& html::escaped_attr(c.id) == c.id
        }),
{
    let c = reader::commit_at(files, rev)->0;
    refs::law_commit_has_id_in_small_letters(files, rev);
    texts::law_object_ids(c.id);
    law_short_form_of_id(c.id);
    links::lemma_id_kept(c.id);
}

// ---------------------------------------------------------------------------
// The log

/// What stands before the rows of the log.
pub open spec fn log_head() -> Seq<char> {
    "<h1>log</h1><table><tr><th>Commit</th><th>Date</th><th>Author</th><th>Subject</th></tr>"@
}

/// The row of a commit in the log: its id, which leads to its page, its time, its
/// author and its subject.
pub open spec fn log_line(name: Seq<char>, c: CommitView) -> Seq<char> {
    row(
        seq![
            cell(link(commit_target(name, c.id), c.id.take(8))),
            cell(shown_time(c.time)),
            cell(html::escaped_text(c.author)),
            cell(html::escaped_text(c.subject)),
        ],
    )
}

pub proof fn lemma_four_cells(a: Seq<char>, b: Seq<char>, c: Seq<char>, d: Seq<char>)
    ensures
        row(seq![cell(a), cell(b), cell(c), cell(d)]) == "<tr><td>"@ + a + "</td><td>"@ + b
            + "</td><td>"@ + c + "</td><td>"@ + d + "</td></tr>"@,
{
    lemma_cell_ends();
    let cells = seq![cell(a), cell(b), cell(c), cell(d)];
    assert(cells.drop_last() =~= seq![cell(a), cell(b), cell(c)]);
    assert(seq![cell(a), cell(b), cell(c)].drop_last() =~= seq![cell(a), cell(b)]);
    assert(seq![cell(a), cell(b)].drop_last() =~= seq![cell(a)]);
    assert(seq![cell(a)].drop_last() =~= Seq::empty());
    reveal_with_fuel(concat, 5);
    assert(concat(cells) =~= cell(a) + cell(b) + cell(c) + cell(d));
    assert(row(cells) =~= "<tr><td>"@ + a + "</td><td>"@ + b + "</td><td>"@ + c + "</td><td>"@ + d
        + "</td></tr>"@);
}

pub proof fn lemma_three_cells(a: Seq<char>, b: Seq<char>, c: Seq<char>)
    ensures
        row(seq![cell(a), cell(b), cell(c)]) == "<tr><td>"@ + a + "</td><td>"@ + b + "</td><td>"@
            + c + "</td></tr>"@,
{
    lemma_cell_ends();
    let cells = seq![cell(a), cell(b), cell(c)];
    assert(cells.drop_last() =~= seq![cell(a), cell(b)]);
    assert(seq![cell(a), cell(b)].drop_last() =~= seq![cell(a)]);
    assert(seq![cell(a)].drop_last() =~= Seq::empty());
    reveal_with_fuel(concat, 4);
    assert(concat(cells) =~= cell(a) + cell(b) + cell(c));
    assert(row(cells) =~= "<tr><td>"@ + a + "</td><td>"@ + b + "</td><td>"@ + c
        + "</td></tr>"@);
}

pub proof fn lemma_two_cells(a: Seq<char>, b: Seq<char>)
    ensures
        row(seq![cell(a), cell(b)]) == "<tr><td>"@ + a + "</td><td>"@ + b + "</td></tr>"@,
{
    lemma_cell_ends();
    let cells = seq![cell(a), cell(b)];
    assert(cells.drop_last() =~= seq![cell(a)]);
    assert(seq![cell(a)].drop_last() =~= Seq::empty());
    reveal_with_fuel(concat, 3);
    assert(concat(cells) =~= cell(a) + cell(b));
    assert(row(cells) =~= "<tr><td>"@ + a + "</td><td>"@ + b + "</td></tr>"@);
}

pub proof fn lemma_cell_ends()
    ensures
        "<tr><td>"@ == "<tr>"@ + "<td>"@,
        "</td><td>"@ == "</td>"@ + "<td>"@,
        "</td></tr>"@ == "</td>"@ + "</tr>"@,
{
    reveal_strlit("<tr><td>");
    reveal_strlit("<tr>");
    reveal_strlit("<td>");
    reveal_strlit("</td><td>");
    reveal_strlit("</td>");
    reveal_strlit("</td></tr>");
    reveal_strlit("</tr>");
    assert("<tr><td>"@ =~= "<tr>"@ + "<td>"@);
    assert("</td><td>"@ =~= "</td>"@ + "<td>"@);
    assert("</td></tr>"@ =~= "</td>"@ + "</tr>"@);
}

pub proof fn lemma_commit_link(name: Seq<char>, id: Seq<char>, label: Seq<char>)
    requires
        html::escaped_attr(id) == id,
    ensures
        parts::commit_link(name, id, label) == link(commit_target(name, id), label),
{
    reveal_strlit("<a href=\"/repo/");
    reveal_strlit("<a href=\"");
    reveal_strlit("/repo/");
    assert("<a href=\"/repo/"@ =~= "<a href=\""@ + "/repo/"@);
    links::law_encoded_needs_no_escape(name);
    assert(parts::commit_link(name, id, label) =~= link(commit_target(name, id), label));
}

proof fn lemma_log_rows(files: FilesView, name: Seq<char>, list: Seq<CommitView>)
    requires
        forall|k: int|
            0 <= k < list.len() ==> html::escaped_attr((#[trigger] list[k]).id) == list[k].id
                && list[k].short_id == list[k].id.take(8),
    ensures
        log::log_rows(name, list) == concat(list.map_values(|c: CommitView| log_line(name, c))),
    decreases list.len(),
{
    let lines = list.map_values(|c: CommitView| log_line(name, c));
    if list.len() > 0 {
        let rest = list.drop_last();
        let c = list[list.len() - 1];
        assert forall|k: int| 0 <= k < rest.len() implies html::escaped_attr(
            (#[trigger] rest[k]).id,
        ) == rest[k].id && rest[k].short_id == rest[k].id.take(8) by {
            assert(rest[k] == list[k]);
        }
        lemma_log_rows(files, name, rest);
        assert(lines.drop_last() =~= rest.map_values(|c: CommitView| log_line(name, c)));
        lemma_commit_link(name, c.id, c.short_id);
        lemma_four_cells(
            link(commit_target(name, c.id), c.id.take(8)),
            shown_time(c.time),
            html::escaped_text(c.author),
            html::escaped_text(c.subject),
        );
        assert(log::log_row(name, c) == log_line(name, c));
    } else {
        assert(lines =~= Seq::empty());
    }
}

/// The log has a row for each of the first fifty commits along first parents from
/// HEAD, in that order, and no other rows.
pub proof fn law_log_shows_the_history(
    repo: RepoView,
    head: Seq<char>,
    chain: Seq<CommitView>,
)
    requires
        is_chain(repo.files, head, chain),
        goes_far(repo.files, head, chain, 50),
    ensures
        shows(
            log::log_page(repo),
            "200 OK"@,
            repo.name + " refs"@,
            parts::nav_text(repo.name, "log"@) + log_head() + concat(
                first_of_chain(chain, 50).map_values(|c: CommitView| log_line(repo.name, c)),
            ) + "</table>"@,
        ),
{
    let list = first_of_chain(chain, 50);
    law_history_is_the_chain(repo.files, head, chain, 50);
    assert forall|k: int| 0 <= k < list.len() implies html::escaped_attr((#[trigger] list[k]).id)
        == list[k].id && list[k].short_id == list[k].id.take(8) by {
        lemma_chain_ids(repo.files, head, chain, k);
    }
    lemma_log_rows(repo.files, repo.name, list);
    lemma_ok(
        repo.name + " refs"@,
        parts::nav_text(repo.name, "log"@) + log_head() + concat(
            list.map_values(|c: CommitView| log_line(repo.name, c)),
        ) + "</table>"@,
    );
}

/// The log of a repository without commits has no rows.
pub proof fn law_log_is_empty_without_commits(repo: RepoView)
    requires
        no_commits(repo.files),
    ensures
        shows(
            log::log_page(repo),
            "200 OK"@,
            repo.name + " refs"@,
            parts::nav_text(repo.name, "log"@) + log_head() + "</table>"@,
        ),
{
    law_no_history_without_head(repo.files, 50);
    let body = parts::nav_text(repo.name, "log"@) + log_head() + "</table>"@;
    assert(parts::nav_text(repo.name, "log"@) + log_head() + Seq::<char>::empty() + "</table>"@
        =~= body);
    lemma_ok(repo.name + " refs"@, body);
}

// ---------------------------------------------------------------------------
// Search

/// What stands before the rows of a search.
pub open spec fn search_head() -> Seq<char> {
    "<h1>search</h1><table><tr><th>Commit</th><th>Subject</th><th>Author</th></tr>"@
}

/// The row of a commit that was found: its id, which leads to its page, its
/// subject and its author.
pub open spec fn search_line(name: Seq<char>, c: CommitView) -> Seq<char> {
    row(
        seq![
            cell(link(commit_target(name, c.id), c.id.take(8))),
            cell(html::escaped_text(c.subject)),
            cell(html::escaped_text(c.author)),
        ],
    )
}

/// True when the message of a commit holds a text, whatever the case of letters.
pub open spec fn speaks_of(c: CommitView, q: Seq<char>) -> bool {
    exists|a: Seq<char>, b: Seq<char>|
        text::lower(c.message) == #[trigger] (a + text::lower(q) + b)
}

proof fn lemma_speaks_of(c: CommitView, q: Seq<char>)
    ensures
        speaks_of(c, q) <==> text::occurs(text::lower(c.message), text::lower(q)),
{
    texts::law_found_part_is_there(text::lower(c.message), text::lower(q));
    if speaks_of(c, q) {
        let (a, b) = choose|a: Seq<char>, b: Seq<char>|
            text::lower(c.message) == #[trigger] (a + text::lower(q) + b);
        texts::law_part_is_found(a, text::lower(q), b);
    }
}

/// The commits of a list that speak of a text, in their order.
pub open spec fn speaking_of(list: Seq<CommitView>, q: Seq<char>) -> Seq<CommitView> {
    list.filter(|c: CommitView| speaks_of(c, q))
}

proof fn lemma_matching(list: Seq<CommitView>, q: Seq<char>)
    ensures
        reader::matching(list, q) == speaking_of(list, q),
    decreases list.len(),
{
    reveal(Seq::filter);
    if list.len() > 0 {
        lemma_matching(list.drop_last(), q);
        lemma_speaks_of(list.last(), q);
    } else {
        assert(reader::matching(list, q) =~= speaking_of(list, q));
    }
}

proof fn lemma_search_rows(name: Seq<char>, list: Seq<CommitView>)
    requires
        forall|k: int|
            0 <= k < list.len() ==> html::escaped_attr((#[trigger] list[k]).id) == list[k].id
                && list[k].short_id == list[k].id.take(8),
    ensures
        log::search_rows(name, list) == concat(
            list.map_values(|c: CommitView| search_line(name, c)),
        ),
    decreases list.len(),
{
    let lines = list.map_values(|c: CommitView| search_line(name, c));
    if list.len() > 0 {
        let rest = list.drop_last();
        let c = list[list.len() - 1];
        assert forall|k: int| 0 <= k < rest.len() implies html::escaped_attr(
            (#[trigger] rest[k]).id,
        ) == rest[k].id && rest[k].short_id == rest[k].id.take(8) by {
            assert(rest[k] == list[k]);
        }
        lemma_search_rows(name, rest);
        assert(lines.drop_last() =~= rest.map_values(|c: CommitView| search_line(name, c)));
        lemma_commit_link(name, c.id, c.short_id);
        lemma_three_cells(
            link(commit_target(name, c.id), c.id.take(8)),
            html::escaped_text(c.subject),
            html::escaped_text(c.author),
        );
        assert(log::search_row(name, c) == search_line(name, c));
    } else {
        assert(lines =~= Seq::empty());
    }
}

/// True when a request asks for that query, with white space around it.
pub open spec fn asks(req: RequestView, q: Seq<char>) -> bool {
    &&& q.len() > 0 ==> !texts::blank(q[0]) && !texts::blank(q.last())
    &&& req.query.contains_key("q"@)
    &&& exists|a: Seq<char>, b: Seq<char>|
        texts::all_blank(a) && texts::all_blank(b) && req.query["q"@] == #[trigger] (a + q + b)
}

pub proof fn lemma_asks(req: RequestView, q: Seq<char>)
    requires
        asks(req, q),
    ensures
        text::trim(parts::query_or(req, "q"@, ""@), Class::Space) == q,
{
    let (a, b) = choose|a: Seq<char>, b: Seq<char>|
        texts::all_blank(a) && texts::all_blank(b) && req.query["q"@] == #[trigger] (a + q + b);
    texts::law_blanks_around_are_taken_off(a, q, b);
}

/// True when a character cannot be seen: it controls a terminal.
pub open spec fn controls(s: Seq<char>) -> bool {
    exists|i: int| 0 <= i < s.len() && unseen(#[trigger] s[i])
}

/// A control character.
pub open spec fn unseen(c: char) -> bool {
    (c as u32) < 32 || 127 <= c as u32 <= 159
}

pub proof fn lemma_controls(s: Seq<char>)
    ensures
        controls(s) <==> crate::security::has_control(s),
{
    if controls(s) {
        let i = choose|i: int| 0 <= i < s.len() && unseen(#[trigger] s[i]);
        lemma_unseen(s[i]);
        assert(text::is_control(s[i]));
    }
    if crate::security::has_control(s) {
        let i = choose|i: int| 0 <= i < s.len() && text::is_control(#[trigger] s[i]);
        lemma_unseen(s[i]);
        assert(unseen(s[i]));
    }
}

pub proof fn lemma_unseen(c: char)
    ensures
        unseen(c) <==> text::is_control(c),
{
}

/// A search shows, of the newest two hundred commits along first parents from
/// HEAD, the first fifty whose messages hold the query, in their order.
#[verifier::spinoff_prover]
#[verifier::rlimit(40)]
pub proof fn law_search_shows_what_it_finds(
    repo: RepoView,
    req: RequestView,
    q: Seq<char>,
    head: Seq<char>,
    chain: Seq<CommitView>,
)
    requires
        asks(req, q),
        encode_utf8(q).len() <= 128,
        !controls(q),
        is_chain(repo.files, head, chain),
        goes_far(repo.files, head, chain, 200),
    ensures
        shows(
            log::search_page(repo, req),
            "200 OK"@,
            "search"@,
            parts::nav_text(repo.name, "search"@) + search_head() + concat(
                first_of_chain(speaking_of(first_of_chain(chain, 200), q), 50).map_values(
                    |c: CommitView| search_line(repo.name, c),
                ),
            ) + "</table>"@,
        ),
{
    let newest = first_of_chain(chain, 200);
    let all = speaking_of(newest, q);
    let list = first_of_chain(all, 50);
    lemma_asks(req, q);
    lemma_controls(q);
    law_history_is_the_chain(repo.files, head, chain, 200);
    lemma_matching(newest, q);
    assert forall|k: int| 0 <= k < list.len() implies html::escaped_attr((#[trigger] list[k]).id)
        == list[k].id && list[k].short_id == list[k].id.take(8) by {
        assert(all.contains(list[k])) by {
            assert(all[k] == list[k]);
        }
        newest.lemma_filter_contains_rev(|c: CommitView| speaks_of(c, q), list[k]);
        let j = choose|j: int| 0 <= j < newest.len() && newest[j] == list[k];
        assert(newest[j] == chain[j]);
        lemma_chain_ids(repo.files, head, chain, j);
    }
    lemma_search_rows(repo.name, list);
    lemma_ok(
        "search"@,
        parts::nav_text(repo.name, "search"@) + search_head() + concat(
            list.map_values(|c: CommitView| search_line(repo.name, c)),
        ) + "</table>"@,
    );
}

/// A search in a repository without commits finds nothing.
pub proof fn law_search_is_empty_without_commits(repo: RepoView, req: RequestView, q: Seq<char>)
    requires
        asks(req, q),
        encode_utf8(q).len() <= 128,
        !controls(q),
        no_commits(repo.files),
    ensures
        shows(
            log::search_page(repo, req),
            "200 OK"@,
            "search"@,
            parts::nav_text(repo.name, "search"@) + search_head() + "</table>"@,
        ),
{
    lemma_asks(req, q);
    lemma_controls(q);
    law_no_history_without_head(repo.files, 200);
    let none: Seq<CommitView> = Seq::empty();
    assert(reader::matching(none, q) =~= none);
    let body = parts::nav_text(repo.name, "search"@) + search_head() + "</table>"@;
    assert(parts::nav_text(repo.name, "search"@) + search_head() + Seq::<char>::empty()
        + "</table>"@ =~= body);
    lemma_ok("search"@, body);
}

/// A query of more than 128 bytes, or with control characters, is refused.
pub proof fn law_odd_query_is_refused(repo: RepoView, req: RequestView, q: Seq<char>)
    requires
        asks(req, q),
        encode_utf8(q).len() > 128 || controls(q),
    ensures
        shows(
            log::search_page(repo, req),
            "400 Bad Request"@,
            "bad search"@,
            "<h1>bad search query</h1>"@,
        ),
{
    lemma_asks(req, q);
    lemma_controls(q);
    lemma_bad("bad search"@, "<h1>bad search query</h1>"@);
}

}
