//! The log and search pages of a repository.

use vstd::prelude::*;
use vstd::utf8::*;
use crate::app::parts::{
    self, append_text, append_time, commit_anchor, html_response, notice, query_value, repo_nav,
};
use crate::git::commit::{self, CommitSummary, CommitView};
use crate::git::reader::{self, recent_commits, search_commits};
use crate::html::{self, page};
use crate::http::{Request, RequestView};
use crate::numbers;
use crate::repo::{Repo, RepoView};
use crate::security::{self, has_control_chars};
use crate::text::{self, trimmed, Class};

verus! {

/// How many commits the log shows.
pub const LOG_COMMITS: usize = 50;

/// How many commits a search shows.
pub const SEARCH_COMMITS: usize = 50;

/// The longest search query that is accepted, in bytes.
pub const MAX_SEARCH_QUERY_LEN: usize = 128;

/// A row of the log.
pub open spec fn log_row(name: Seq<char>, c: CommitView) -> Seq<char> {
    "<tr><td>"@ + parts::commit_link(name, c.id, c.short_id) + "</td><td>"@ + html::escaped_text(
        numbers::signed_decimal(c.time as int),
    ) + "</td><td>"@ + html::escaped_text(c.author) + "</td><td>"@ + html::escaped_text(c.subject)
        + "</td></tr>"@
}

/// The rows of the log.
pub open spec fn log_rows(name: Seq<char>, list: Seq<CommitView>) -> Seq<char>
    decreases list.len(),
{
    if list.len() == 0 {
        Seq::empty()
    } else {
        log_rows(name, list.drop_last()) + log_row(name, list.last())
    }
}

/// The log page.
pub open spec fn log_page(repo: RepoView) -> Seq<char> {
    parts::page_response(
        200,
        "OK"@,
        repo.name + " refs"@,
        parts::nav_text(repo.name, "log"@)
            + "<h1>log</h1><table><tr><th>Commit</th><th>Date</th><th>Author</th><th>Subject</th></tr>"@
            + log_rows(repo.name, reader::history(repo.files, LOG_COMMITS as nat)) + "</table>"@,
    )
}

fn append_log_row(body: &mut String, name: &str, c: &CommitSummary)
    ensures
        final(body)@ == old(body)@ + log_row(name@, c@),
{
    let mut row: String = "<tr><td>".to_owned();
    let link = commit_anchor(name, c.id.as_str(), c.short_id.as_str());
    row.append(link.as_str());
    row.append("</td><td>");
    append_time(&mut row, c.time);
    row.append("</td><td>");
    append_text(&mut row, c.author.as_str());
    row.append("</td><td>");
    append_text(&mut row, c.subject.as_str());
    row.append("</td></tr>");
    body.append(row.as_str());
}

fn append_log_rows(body: &mut String, name: &str, list: &Vec<CommitSummary>)
    ensures
        final(body)@ == old(body)@ + log_rows(name@, commit::commit_views(list@)),
{
    let ghost start = body@;
    let ghost all = commit::commit_views(list@);
    let mut i: usize = 0;
    assert(body@ =~= start + log_rows(name@, all.take(0)));
    while i < list.len()
        invariant
            all == commit::commit_views(list@),
            i <= list.len(),
            body@ == start + log_rows(name@, all.take(i as int)),
        decreases list.len() - i,
    {
        assert(all.take(i + 1).drop_last() =~= all.take(i as int));
        assert(all.take(i + 1).last() == list@[i as int]@);
        append_log_row(body, name, &list[i]);
        assert(body@ =~= start + log_rows(name@, all.take(i + 1)));
        i = i + 1;
    }
    assert(all.take(i as int) =~= all);
}

/// Render the log page.
pub fn render_log(repo: &Repo) -> (r: String)
    ensures
        r@ == log_page(repo@),
{
    let mut body: String = repo_nav(repo, "log");
    body.append(
        "<h1>log</h1><table><tr><th>Commit</th><th>Date</th><th>Author</th><th>Subject</th></tr>",
    );
    let list = recent_commits(repo, LOG_COMMITS);
    append_log_rows(&mut body, repo.name(), &list);
    body.append("</table>");
    let mut title: String = repo.name().to_owned();
    title.append(" refs");
    html_response(200, "OK", page(title.as_str(), body.as_str()))
}

/// A row of the commits found.
pub open spec fn search_row(name: Seq<char>, c: CommitView) -> Seq<char> {
    "<tr><td>"@ + parts::commit_link(name, c.id, c.short_id) + "</td><td>"@ + html::escaped_text(
        c.subject,
    ) + "</td><td>"@ + html::escaped_text(c.author) + "</td></tr>"@
}

/// The rows of the commits found.
pub open spec fn search_rows(name: Seq<char>, list: Seq<CommitView>) -> Seq<char>
    decreases list.len(),
{
    if list.len() == 0 {
        Seq::empty()
    } else {
        search_rows(name, list.drop_last()) + search_row(name, list.last())
    }
}

/// The query that a search request asks for.
pub open spec fn search_query(req: RequestView) -> Seq<char> {
    text::trim(parts::query_or(req, "q"@, ""@), Class::Space)
}

/// The search page; a query that is too long or holds control characters is
/// refused.
pub open spec fn search_page(repo: RepoView, req: RequestView) -> Seq<char> {
    let q = search_query(req);
    if encode_utf8(q).len() > MAX_SEARCH_QUERY_LEN || security::has_control(q) {
        parts::page_response(400, "Bad Request"@, "bad search"@, "<h1>bad search query</h1>"@)
    } else {
        parts::page_response(
            200,
            "OK"@,
            "search"@,
            parts::nav_text(repo.name, "search"@)
                + "<h1>search</h1><table><tr><th>Commit</th><th>Subject</th><th>Author</th></tr>"@
                + search_rows(
                repo.name,
                reader::at_most(
                    reader::matching(
                        reader::history(repo.files, (SEARCH_COMMITS * 4) as nat),
                        q,
                    ),
                    SEARCH_COMMITS as nat,
                ),
            ) + "</table>"@,
        )
    }
}

fn append_search_row(body: &mut String, name: &str, c: &CommitSummary)
    ensures
        final(body)@ == old(body)@ + search_row(name@, c@),
{
    let mut row: String = "<tr><td>".to_owned();
    let link = commit_anchor(name, c.id.as_str(), c.short_id.as_str());
    row.append(link.as_str());
    row.append("</td><td>");
    append_text(&mut row, c.subject.as_str());
    row.append("</td><td>");
    append_text(&mut row, c.author.as_str());
    row.append("</td></tr>");
    body.append(row.as_str());
}

fn append_search_rows(body: &mut String, name: &str, list: &Vec<CommitSummary>)
    ensures
        final(body)@ == old(body)@ + search_rows(name@, commit::commit_views(list@)),
{
    let ghost start = body@;
    let ghost all = commit::commit_views(list@);
    let mut i: usize = 0;
    assert(body@ =~= start + search_rows(name@, all.take(0)));
    while i < list.len()
        invariant
            all == commit::commit_views(list@),
            i <= list.len(),
            body@ == start + search_rows(name@, all.take(i as int)),
        decreases list.len() - i,
    {
        assert(all.take(i + 1).drop_last() =~= all.take(i as int));
        assert(all.take(i + 1).last() == list@[i as int]@);
        append_search_row(body, name, &list[i]);
        assert(body@ =~= start + search_rows(name@, all.take(i + 1)));
        i = i + 1;
    }
    assert(all.take(i as int) =~= all);
}

/// Render the search page.
pub fn render_search(repo: &Repo, req: &Request) -> (r: String)
    ensures
        r@ == search_page(repo@, req@),
{
    let q = trimmed(query_value(req, "q", ""), Class::Space);
    if q.as_str().as_bytes().len() > MAX_SEARCH_QUERY_LEN || has_control_chars(q.as_str()) {
        return notice(400, "Bad Request", "bad search", "<h1>bad search query</h1>");
    }
    let mut body: String = repo_nav(repo, "search");
    body.append("<h1>search</h1><table><tr><th>Commit</th><th>Subject</th><th>Author</th></tr>");
    let list = search_commits(repo, q.as_str(), SEARCH_COMMITS);
    append_search_rows(&mut body, repo.name(), &list);
    body.append("</table>");
    html_response(200, "OK", page("search", body.as_str()))
}

}
