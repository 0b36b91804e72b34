//! The pages that the output of commands makes.

use vstd::prelude::*;
use vstd::utf8::*;
use crate::app::clone::PLAIN;
use crate::app::log::MAX_SEARCH_QUERY_LEN;
use crate::app::objects;
use crate::app::parts::{
    self, append_text, html_response, notice, public_clone_command, query_value, repo_nav,
};
use crate::html::{self, attr, page, url_path, url_query};
use crate::http::{self, response, Request, RequestView};
use crate::porcelain::command;
use crate::porcelain::rows::{self, append_rows, Table};
use crate::repo::{Repo, RepoView};
use crate::security::{self, has_control_chars, safe_git_path, safe_git_rev};
use crate::text::{
    self, same, split_lines, split_pair, split_words, trimmed, Class,
};

verus! {

/// An output, or nothing when the command failed.
pub open spec fn or_nothing(output: Result<Seq<char>, Seq<char>>) -> Seq<char> {
    match output {
        Ok(s) => s,
        Err(_) => Seq::empty(),
    }
}

pub(crate) fn text_or_nothing(output: Result<String, String>) -> (r: String)
    ensures
        r@ == or_nothing(command::output_view(output)),
{
    match output {
        Ok(s) => s,
        Err(_) => {
            let none = String::new();
            assert(none@ =~= Seq::<char>::empty());
            none
        },
    }
}

/// An output, or a notice when the command failed.
pub open spec fn or_notice(output: Result<Seq<char>, Seq<char>>, notice: Seq<char>) -> Seq<char> {
    match output {
        Ok(s) => s,
        Err(_) => notice,
    }
}

/// The first line of a text.
pub open spec fn first_of(s: Seq<char>) -> Seq<char> {
    let lines = text::lines(s);
    if lines.len() == 0 {
        Seq::empty()
    } else {
        lines[0]
    }
}

/// The first line of a text; nothing when there is none.
pub fn first_line(s: &str) -> (r: String)
    ensures
        r@ == first_of(s@),
{
    let lines = split_lines(s);
    assert(text::views(lines@).len() == lines@.len());
    if lines.len() == 0 {
        let none = String::new();
        assert(none@ =~= Seq::<char>::empty());
        return none;
    }
    assert(text::views(lines@)[0] == lines@[0]@);
    lines[0].as_str().to_owned()
}

// ---------------------------------------------------------------------------
// Clone

/// Serve the list of refs that a command gives.
pub fn serve_info_refs(output: Result<String, String>) -> (r: Vec<u8>)
    ensures
        r@ == http::response_of(
            200,
            "OK"@,
            PLAIN@,
            encode_utf8(or_nothing(command::output_view(output))),
        ),
{
    let body = text_or_nothing(output);
    response(200, "OK", PLAIN, body.as_str())
}

// ---------------------------------------------------------------------------
// Summary, log and search

/// The body of the summary page.
pub open spec fn summary_body(
    name: Seq<char>,
    branches: Seq<char>,
    commits: Seq<char>,
    clone_command: Seq<char>,
) -> Seq<char> {
    parts::nav_text(name, "summary"@)
        + "<section class=\"summary-block\"><table><tr><th>Branch</th><th>Commit message</th><th>Author</th><th>Age</th></tr>"@
        + rows::rows(Table::Branches, name, text::lines(branches)) + "</table></section>"@
        + "<section class=\"summary-block\"><table><tr><th>Age</th><th>Commit message</th><th>Author</th></tr>"@
        + rows::rows(Table::Recent, name, text::lines(commits)) + "</table><p><a href=\""@
        + html::escaped_attr("/repo/"@ + html::path_encoded(name) + "/log"@)
        + "\">[...]</a></p></section>"@
        + "<section class=\"summary-block\"><h2>Clone</h2><div class=\"clone-url\">"@
        + html::escaped_text(clone_command) + "</div></section>"@
}

/// Render the summary page over what the commands for branches and commits give.
pub fn render_summary(
    public_base: Option<&str>,
    repo: &Repo,
    req: &Request,
    branches: Result<String, String>,
    commits: Result<String, String>,
) -> (r: String)
    ensures
        r@ == parts::page_response(
            200,
            "OK"@,
            repo@.name,
            summary_body(
                repo@.name,
                or_nothing(command::output_view(branches)),
                or_nothing(command::output_view(commits)),
                parts::clone_command(
                    match public_base {
                        Some(b) => Some(b@),
                        None => None,
                    },
                    req@.host,
                    repo@.name,
                ),
            ),
        ),
{
    let branch_lines = text_or_nothing(branches);
    let commit_lines = text_or_nothing(commits);
    let mut body: String = repo_nav(repo, "summary");
    body.append(
        "<section class=\"summary-block\"><table><tr><th>Branch</th><th>Commit message</th><th>Author</th><th>Age</th></tr>",
    );
    append_rows(&mut body, Table::Branches, repo.name(), branch_lines.as_str());
    body.append("</table></section>");
    body.append(
        "<section class=\"summary-block\"><table><tr><th>Age</th><th>Commit message</th><th>Author</th></tr>",
    );
    append_rows(&mut body, Table::Recent, repo.name(), commit_lines.as_str());
    body.append("</table><p><a href=\"");
    let mut target: String = "/repo/".to_owned();
    let encoded = url_path(repo.name());
    target.append(encoded.as_str());
    target.append("/log");
    let quoted = attr(target.as_str());
    body.append(quoted.as_str());
    body.append("\">[...]</a></p></section>");
    body.append("<section class=\"summary-block\"><h2>Clone</h2><div class=\"clone-url\">");
    let shown = public_clone_command(public_base, repo, req);
    append_text(&mut body, shown.as_str());
    body.append("</div></section>");
    html_response(200, "OK", page(repo.name(), body.as_str()))
}

/// The log page.
pub open spec fn log_page(name: Seq<char>, output: Seq<char>) -> Seq<char> {
    parts::page_response(
        200,
        "OK"@,
        name + " log"@,
        parts::nav_text(name, "log"@)
            + "<h1>log</h1><table><tr><th>Commit</th><th>Date</th><th>Author</th><th>Subject</th></tr>"@
            + rows::rows(Table::Log, name, text::lines(output)) + "</table>"@,
    )
}

/// Render the log page over what the command for it gives.
pub fn render_log(repo: &Repo, output: Result<String, String>) -> (r: String)
    ensures
        r@ == log_page(repo@.name, or_nothing(command::output_view(output))),
{
    let lines = text_or_nothing(output);
    let mut body: String = repo_nav(repo, "log");
    body.append(
        "<h1>log</h1><table><tr><th>Commit</th><th>Date</th><th>Author</th><th>Subject</th></tr>",
    );
    append_rows(&mut body, Table::Log, repo.name(), lines.as_str());
    body.append("</table>");
    let mut title: String = repo.name().to_owned();
    title.append(" log");
    html_response(200, "OK", page(title.as_str(), body.as_str()))
}

/// What is done about a search.
pub enum Search {
    /// There is nothing to search for, or it is refused: the page.
    Answer(String),
    /// The query to search for.
    Run(String),
}

/// The page that asks for a query.
pub open spec fn ask_page(name: Seq<char>) -> Seq<char> {
    parts::page_response(
        200,
        "OK"@,
        name + " search"@,
        parts::nav_text(name, "search"@) + "<h1>search</h1>"@
            + "<p class=\"muted\">Type a commit-message search above.</p>"@,
    )
}

/// Decide what is done about a search.
pub fn check_search(repo: &Repo, req: &Request) -> (r: Search)
    ensures
        ({
            let q = text::trim(parts::query_or(req@, "q"@, ""@), Class::Space);
            if q.len() == 0 {
                r matches Search::Answer(page) && page@ == ask_page(repo@.name)
            } else if encode_utf8(q).len() > MAX_SEARCH_QUERY_LEN || security::has_control(q) {
                r matches Search::Answer(page) && page@ == parts::page_response(
                    400,
                    "Bad Request"@,
                    "bad search"@,
                    "<h1>bad search query</h1>"@,
                )
            } else {
                r matches Search::Run(query) && query@ == q
            }
        }),
{
    let q = trimmed(query_value(req, "q", ""), Class::Space);
    if q.as_str().is_empty() {
        let mut body: String = repo_nav(repo, "search");
        body.append("<h1>search</h1>");
        body.append("<p class=\"muted\">Type a commit-message search above.</p>");
        let mut title: String = repo.name().to_owned();
        title.append(" search");
        return Search::Answer(html_response(200, "OK", page(title.as_str(), body.as_str())));
    }
    if q.as_str().as_bytes().len() > MAX_SEARCH_QUERY_LEN || has_control_chars(q.as_str()) {
        return Search::Answer(
            notice(400, "Bad Request", "bad search", "<h1>bad search query</h1>"),
        );
    }
    Search::Run(q)
}

/// What is searched for rows: also the words of a failure.
pub open spec fn either(output: Result<Seq<char>, Seq<char>>) -> Seq<char> {
    match output {
        Ok(s) => s,
        Err(e) => e,
    }
}

/// The page of a search.
pub open spec fn search_page(name: Seq<char>, output: Seq<char>) -> Seq<char> {
    parts::page_response(
        200,
        "OK"@,
        name + " search"@,
        parts::nav_text(name, "search"@) + "<h1>search</h1>"@
            + "<table><tr><th>Age</th><th>Commit message</th><th>Author</th></tr>"@ + rows::rows(
            Table::Found,
            name,
            text::lines(output),
        ) + "</table>"@,
    )
}

/// Render the page of a search over what the command for it gives.
pub fn render_search(repo: &Repo, output: Result<String, String>) -> (r: String)
    ensures
        r@ == search_page(repo@.name, either(command::output_view(output))),
{
    let lines: String = match output {
        Ok(s) => s,
        Err(e) => e,
    };
    let mut body: String = repo_nav(repo, "search");
    body.append("<h1>search</h1>");
    body.append("<table><tr><th>Age</th><th>Commit message</th><th>Author</th></tr>");
    append_rows(&mut body, Table::Found, repo.name(), lines.as_str());
    body.append("</table>");
    let mut title: String = repo.name().to_owned();
    title.append(" search");
    html_response(200, "OK", page(title.as_str(), body.as_str()))
}

// ---------------------------------------------------------------------------
// Trees

/// The path of an entry in a directory.
pub fn join_repo_path(parent: &str, child: &str) -> (r: String)
    ensures
        r@ == objects::child_path(parent@, child@),
{
    if parent.is_empty() {
        return child.to_owned();
    }
    let mut out: String = parent.to_owned();
    out.append("/");
    out.append(child);
    out
}

/// A row of a tree.
pub open spec fn tree_row(
    name: Seq<char>,
    rev: Seq<char>,
    path: Seq<char>,
    mode: Seq<char>,
    kind: Seq<char>,
    entry: Seq<char>,
) -> Seq<char> {
    let target = if kind == "tree"@ {
        "/tree?rev="@
    } else {
        "/blob?rev="@
    };
    let href = "/repo/"@ + html::path_encoded(name) + target + html::query_encoded(rev)
        + "&path="@ + html::query_encoded(objects::child_path(path, entry));
    "<tr><td>"@ + html::escaped_text(mode) + "</td><td>"@ + html::escaped_text(kind)
        + "</td><td><a href=\""@ + html::escaped_attr(href) + "\">"@ + html::escaped_text(entry)
        + "</a></td></tr>"@
}

/// The row of a line of a tree listing: mode, kind and id, a tab and the name.
/// Any other line has none.
pub open spec fn tree_line(
    name: Seq<char>,
    rev: Seq<char>,
    path: Seq<char>,
    line: Seq<char>,
) -> Seq<char> {
    match text::split_once(line, '\t') {
        None => Seq::empty(),
        Some(p) => {
            let words = text::words(p.0);
            if words.len() < 3 {
                Seq::empty()
            } else {
                tree_row(name, rev, path, words[0], words[1], p.1)
            }
        },
    }
}

/// The rows of a tree listing.
pub open spec fn tree_rows(
    name: Seq<char>,
    rev: Seq<char>,
    path: Seq<char>,
    lines: Seq<Seq<char>>,
) -> Seq<char>
    decreases lines.len(),
{
    if lines.len() == 0 {
        Seq::empty()
    } else {
        tree_rows(name, rev, path, lines.drop_last()) + tree_line(name, rev, path, lines.last())
    }
}

fn append_tree_line(body: &mut String, name: &str, rev: &str, path: &str, line: &str)
    ensures
        final(body)@ == old(body)@ + tree_line(name@, rev@, path@, line@),
{
    let (meta, entry) = match split_pair(line, '\t') {
        Some(p) => p,
        None => {
            assert(body@ + Seq::<char>::empty() =~= body@);
            return;
        },
    };
    let words = split_words(meta.as_str());
    assert(text::views(words@).len() == words@.len());
    if words.len() < 3 {
        assert(body@ + Seq::<char>::empty() =~= body@);
        return;
    }
    assert(text::views(words@)[0] == words@[0]@);
    assert(text::views(words@)[1] == words@[1]@);
    let child = join_repo_path(path, entry.as_str());
    let mut href: String = "/repo/".to_owned();
    let encoded = url_path(name);
    href.append(encoded.as_str());
    if same(words[1].as_str(), "tree") {
        href.append("/tree?rev=");
    } else {
        href.append("/blob?rev=");
    }
    let encoded_rev = url_query(rev);
    href.append(encoded_rev.as_str());
    href.append("&path=");
    let encoded_child = url_query(child.as_str());
    href.append(encoded_child.as_str());
    let mut row: String = "<tr><td>".to_owned();
    append_text(&mut row, words[0].as_str());
    row.append("</td><td>");
    append_text(&mut row, words[1].as_str());
    row.append("</td><td><a href=\"");
    let quoted = attr(href.as_str());
    row.append(quoted.as_str());
    row.append("\">");
    append_text(&mut row, entry.as_str());
    row.append("</a></td></tr>");
    body.append(row.as_str());
}

fn append_tree_lines(body: &mut String, name: &str, rev: &str, path: &str, output: &str)
    ensures
        final(body)@ == old(body)@ + tree_rows(name@, rev@, path@, text::lines(output@)),
{
    let lines = split_lines(output);
    let ghost start = body@;
    let ghost all = text::views(lines@);
    let mut i: usize = 0;
    assert(body@ =~= start + tree_rows(name@, rev@, path@, all.take(0)));
    while i < lines.len()
        invariant
            all == text::views(lines@),
            i <= lines.len(),
            body@ == start + tree_rows(name@, rev@, path@, all.take(i as int)),
        decreases lines.len() - i,
    {
        assert(all.take(i + 1).drop_last() =~= all.take(i as int));
        assert(all.take(i + 1).last() == lines@[i as int]@);
        append_tree_line(body, name, rev, path, lines[i].as_str());
        assert(body@ =~= start + tree_rows(name@, rev@, path@, all.take(i + 1)));
        i = i + 1;
    }
    assert(all.take(i as int) =~= all);
}

/// The tree page; an unsafe revision or path is refused.
pub open spec fn tree_page(repo: RepoView, req: RequestView, output: Seq<char>) -> Seq<char> {
    let rev = parts::query_or(req, "rev"@, "HEAD"@);
    let path = parts::query_or(req, "path"@, ""@);
    if !security::git_path_ok(path) || !security::git_rev_ok(rev) {
        parts::page_response(400, "Bad Request"@, "bad path"@, "<h1>bad path</h1>"@)
    } else {
        parts::page_response(
            200,
            "OK"@,
            repo.name + " tree"@,
            parts::nav_text(repo.name, "tree"@)
                + "<h1>tree</h1><table><tr><th>Mode</th><th>Type</th><th>Name</th></tr>"@
                + tree_rows(repo.name, rev, path, text::lines(output)) + "</table>"@,
        )
    }
}

/// Render the tree page over what the command for it gives.
pub fn render_tree(repo: &Repo, req: &Request, output: Result<String, String>) -> (r: String)
    ensures
        r@ == tree_page(repo@, req@, or_nothing(command::output_view(output))),
{
    let rev = query_value(req, "rev", "HEAD");
    let path = query_value(req, "path", "");
    if !safe_git_path(path) || !safe_git_rev(rev) {
        return notice(400, "Bad Request", "bad path", "<h1>bad path</h1>");
    }
    let lines = text_or_nothing(output);
    let mut body: String = repo_nav(repo, "tree");
    body.append("<h1>tree</h1><table><tr><th>Mode</th><th>Type</th><th>Name</th></tr>");
    append_tree_lines(&mut body, repo.name(), rev, path, lines.as_str());
    body.append("</table>");
    let mut title: String = repo.name().to_owned();
    title.append(" tree");
    html_response(200, "OK", page(title.as_str(), body.as_str()))
}

// ---------------------------------------------------------------------------
// Blobs, commits and diffs

/// The blob page; an unsafe revision or path is refused.
pub open spec fn blob_page(
    repo: RepoView,
    req: RequestView,
    output: Result<Seq<char>, Seq<char>>,
) -> Seq<char> {
    let rev = parts::query_or(req, "rev"@, "HEAD"@);
    let path = parts::query_or(req, "path"@, ""@);
    if path.len() == 0 || !security::git_path_ok(path) || !security::git_rev_ok(rev) {
        parts::page_response(400, "Bad Request"@, "bad path"@, "<h1>bad path</h1>"@)
    } else {
        match output {
            Ok(contents) => parts::page_response(
                200,
                "OK"@,
                path,
                parts::nav_text(repo.name, "tree"@) + "<h1>"@ + html::escaped_text(path)
                    + "</h1><pre>"@ + html::escaped_text(contents) + "</pre>"@,
            ),
            Err(_) => parts::page_response(
                404,
                "Not Found"@,
                "not found"@,
                "<h1>blob not found</h1>"@,
            ),
        }
    }
}

/// Render the blob page over what the command for it gives.
pub fn render_blob(repo: &Repo, req: &Request, output: Result<String, String>) -> (r: String)
    ensures
        r@ == blob_page(repo@, req@, command::output_view(output)),
{
    let rev = query_value(req, "rev", "HEAD");
    let path = query_value(req, "path", "");
    if path.is_empty() || !safe_git_path(path) || !safe_git_rev(rev) {
        return notice(400, "Bad Request", "bad path", "<h1>bad path</h1>");
    }
    match output {
        Ok(contents) => {
            let mut body: String = repo_nav(repo, "tree");
            body.append("<h1>");
            append_text(&mut body, path);
            body.append("</h1><pre>");
            append_text(&mut body, contents.as_str());
            body.append("</pre>");
            html_response(200, "OK", page(path, body.as_str()))
        },
        Err(_) => notice(404, "Not Found", "not found", "<h1>blob not found</h1>"),
    }
}

/// The commit page; an unsafe revision is refused.
pub open spec fn commit_page(
    repo: RepoView,
    req: RequestView,
    output: Result<Seq<char>, Seq<char>>,
) -> Seq<char> {
    let id = parts::query_or(req, "id"@, "HEAD"@);
    if !security::git_rev_ok(id) {
        parts::page_response(400, "Bad Request"@, "bad revision"@, "<h1>bad revision</h1>"@)
    } else {
        parts::page_response(
            200,
            "OK"@,
            "commit "@ + id,
            parts::nav_text(repo.name, "log"@) + "<h1>commit "@ + html::escaped_text(id)
                + "</h1><p><a href=\"/repo/"@ + html::escaped_attr(html::path_encoded(repo.name))
                + "/diff?id="@ + html::escaped_attr(html::query_encoded(id))
                + "\">diff only</a></p><pre>"@ + html::escaped_text(
                or_notice(output, "commit not found"@),
            ) + "</pre>"@,
        )
    }
}

/// Render the commit page over what the command for it gives.
pub fn render_commit(repo: &Repo, req: &Request, output: Result<String, String>) -> (r: String)
    ensures
        r@ == commit_page(repo@, req@, command::output_view(output)),
{
    let id = query_value(req, "id", "HEAD");
    if !safe_git_rev(id) {
        return notice(400, "Bad Request", "bad revision", "<h1>bad revision</h1>");
    }
    let shown: String = match output {
        Ok(s) => s,
        Err(_) => "commit not found".to_owned(),
    };
    let mut body: String = repo_nav(repo, "log");
    body.append("<h1>commit ");
    append_text(&mut body, id);
    body.append("</h1><p><a href=\"/repo/");
    let encoded = url_path(repo.name());
    let quoted = attr(encoded.as_str());
    body.append(quoted.as_str());
    body.append("/diff?id=");
    let encoded_id = url_query(id);
    let quoted_id = attr(encoded_id.as_str());
    body.append(quoted_id.as_str());
    body.append("\">diff only</a></p><pre>");
    append_text(&mut body, shown.as_str());
    body.append("</pre>");
    let mut title: String = "commit ".to_owned();
    title.append(id);
    html_response(200, "OK", page(title.as_str(), body.as_str()))
}

/// The diff page; an unsafe revision is refused.
pub open spec fn diff_page(
    repo: RepoView,
    req: RequestView,
    output: Result<Seq<char>, Seq<char>>,
) -> Seq<char> {
    let id = parts::query_or(req, "id"@, "HEAD"@);
    if !security::git_rev_ok(id) {
        parts::page_response(400, "Bad Request"@, "bad revision"@, "<h1>bad revision</h1>"@)
    } else {
        parts::page_response(
            200,
            "OK"@,
            "diff "@ + id,
            parts::nav_text(repo.name, "log"@) + "<h1>diff "@ + html::escaped_text(id)
                + "</h1><pre>"@ + html::escaped_text(or_notice(output, "diff not found"@))
                + "</pre>"@,
        )
    }
}

/// Render the diff page over what the command for it gives.
pub fn render_diff(repo: &Repo, req: &Request, output: Result<String, String>) -> (r: String)
    ensures
        r@ == diff_page(repo@, req@, command::output_view(output)),
{
    let id = query_value(req, "id", "HEAD");
    if !safe_git_rev(id) {
        return notice(400, "Bad Request", "bad revision", "<h1>bad revision</h1>");
    }
    let shown: String = match output {
        Ok(s) => s,
        Err(_) => "diff not found".to_owned(),
    };
    let mut body: String = repo_nav(repo, "log");
    body.append("<h1>diff ");
    append_text(&mut body, id);
    body.append("</h1><pre>");
    append_text(&mut body, shown.as_str());
    body.append("</pre>");
    let mut title: String = "diff ".to_owned();
    title.append(id);
    html_response(200, "OK", page(title.as_str(), body.as_str()))
}

}
