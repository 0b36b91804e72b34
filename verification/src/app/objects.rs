//! The pages of trees, blobs and commits.

use vstd::prelude::*;
use crate::app::parts::{
    self, append_text, append_time, html_response, notice, query_value, repo_nav,
};
use crate::git::commit::{self, short_id, CommitView};
use crate::git::reader::{self, blob, commit, tree_entries};
use crate::git::tree::{self, EntryView, TreeEntry};
use crate::html::{self, attr, page, url_path};
use crate::http::{Request, RequestView};
use crate::numbers;
use crate::repo::{Repo, RepoView};
use crate::security::{self, safe_git_path, safe_git_rev};
use crate::text::{self, decode_lossy, join_strings, same};

verus! {

/// The longest blob that is shown, in bytes.
pub const MAX_BLOB_BYTES: usize = 1_048_576;

// ---------------------------------------------------------------------------
// Trees

/// The path of an entry in the directory `path`.
pub open spec fn child_path(path: Seq<char>, name: Seq<char>) -> Seq<char> {
    if path.len() == 0 {
        name
    } else {
        path + "/"@ + name
    }
}

fn child_of(path: &str, name: &str) -> (r: String)
    ensures
        r@ == child_path(path@, name@),
{
    if path.is_empty() {
        return name.to_owned();
    }
    let mut out: String = path.to_owned();
    out.append("/");
    out.append(name);
    out
}

/// A row of a tree: directories lead to their tree, anything else to its blob.
pub open spec fn tree_row(
    name: Seq<char>,
    rev: Seq<char>,
    path: Seq<char>,
    e: EntryView,
) -> Seq<char> {
    let target = if e.kind == "tree"@ {
        "tree"@
    } else {
        "blob"@
    };
    "<tr><td>"@ + html::escaped_text(e.mode) + "</td><td>"@ + html::escaped_text(e.kind)
        + "</td><td>"@ + html::escaped_text(commit::short(e.oid))
        + "</td><td><a href=\"/repo/"@ + html::escaped_attr(html::path_encoded(name)) + "/"@
        + target + "?rev="@ + html::escaped_attr(rev) + "&path="@ + html::escaped_attr(
        html::path_encoded(child_path(path, e.name)),
    ) + "\">"@ + html::escaped_text(e.name) + "</a></td></tr>"@
}

/// The rows of a tree.
pub open spec fn tree_rows(
    name: Seq<char>,
    rev: Seq<char>,
    path: Seq<char>,
    list: Seq<EntryView>,
) -> Seq<char>
    decreases list.len(),
{
    if list.len() == 0 {
        Seq::empty()
    } else {
        tree_rows(name, rev, path, list.drop_last()) + tree_row(name, rev, path, list.last())
    }
}

/// The tree page; an unsafe revision or path is refused.
pub open spec fn tree_page(repo: RepoView, req: RequestView) -> Seq<char> {
    let rev = parts::query_or(req, "rev"@, "HEAD"@);
    let path = parts::query_or(req, "path"@, ""@);
    if !security::git_rev_ok(rev) || !security::git_path_ok(path) {
        parts::page_response(400, "Bad Request"@, "bad path"@, "<h1>bad path</h1>"@)
    } else {
        parts::page_response(
            200,
            "OK"@,
            "tree"@,
            parts::nav_text(repo.name, "tree"@)
                + "<h1>tree</h1><table><tr><th>Mode</th><th>Type</th><th>Object</th><th>Name</th></tr>"@
                + tree_rows(repo.name, rev, path, reader::directory(repo.files, rev, path))
                + "</table>"@,
        )
    }
}

fn append_tree_row(body: &mut String, name: &str, rev: &str, path: &str, e: &TreeEntry)
    ensures
        final(body)@ == old(body)@ + tree_row(name@, rev@, path@, e@),
{
    let mut row: String = "<tr><td>".to_owned();
    append_text(&mut row, e.mode.as_str());
    row.append("</td><td>");
    append_text(&mut row, e.kind.as_str());
    row.append("</td><td>");
    let short = short_id(e.oid.as_str());
    append_text(&mut row, short.as_str());
    row.append("</td><td><a href=\"/repo/");
    let encoded = url_path(name);
    let quoted = attr(encoded.as_str());
    row.append(quoted.as_str());
    row.append("/");
    if same(e.kind.as_str(), "tree") {
        row.append("tree");
    } else {
        row.append("blob");
    }
    row.append("?rev=");
    let quoted_rev = attr(rev);
    row.append(quoted_rev.as_str());
    row.append("&path=");
    let child = child_of(path, e.name.as_str());
    let encoded_child = url_path(child.as_str());
    let quoted_child = attr(encoded_child.as_str());
    row.append(quoted_child.as_str());
    row.append("\">");
    append_text(&mut row, e.name.as_str());
    row.append("</a></td></tr>");
    body.append(row.as_str());
}

fn append_tree_rows(body: &mut String, name: &str, rev: &str, path: &str, list: &Vec<TreeEntry>)
    ensures
        final(body)@ == old(body)@ + tree_rows(name@, rev@, path@, tree::entry_views(list@)),
{
    let ghost start = body@;
    let ghost all = tree::entry_views(list@);
    let mut i: usize = 0;
    assert(body@ =~= start + tree_rows(name@, rev@, path@, all.take(0)));
    while i < list.len()
        invariant
            all == tree::entry_views(list@),
            i <= list.len(),
            body@ == start + tree_rows(name@, rev@, path@, all.take(i as int)),
        decreases list.len() - i,
    {
        assert(all.take(i + 1).drop_last() =~= all.take(i as int));
        assert(all.take(i + 1).last() == list@[i as int]@);
        append_tree_row(body, name, rev, path, &list[i]);
        assert(body@ =~= start + tree_rows(name@, rev@, path@, all.take(i + 1)));
        i = i + 1;
    }
    assert(all.take(i as int) =~= all);
}

/// Render the tree page.
pub fn render_tree(repo: &Repo, req: &Request) -> (r: String)
    ensures
        r@ == tree_page(repo@, req@),
{
    let rev = query_value(req, "rev", "HEAD");
    let path = query_value(req, "path", "");
    if !safe_git_rev(rev) || !safe_git_path(path) {
        return notice(400, "Bad Request", "bad path", "<h1>bad path</h1>");
    }
    let mut body: String = repo_nav(repo, "tree");
    body.append(
        "<h1>tree</h1><table><tr><th>Mode</th><th>Type</th><th>Object</th><th>Name</th></tr>",
    );
    let list = tree_entries(repo, rev, path);
    append_tree_rows(&mut body, repo.name(), rev, path, &list);
    body.append("</table>");
    html_response(200, "OK", page("tree", body.as_str()))
}

// ---------------------------------------------------------------------------
// Blobs

/// The blob page; an unsafe revision or path is refused.
pub open spec fn blob_page(repo: RepoView, req: RequestView) -> Seq<char> {
    let rev = parts::query_or(req, "rev"@, "HEAD"@);
    let path = parts::query_or(req, "path"@, ""@);
    if path.len() == 0 || !security::git_rev_ok(rev) || !security::git_path_ok(path) {
        parts::page_response(400, "Bad Request"@, "bad blob"@, "<h1>bad blob</h1>"@)
    } else {
        match reader::file_contents(repo.files, rev, path, MAX_BLOB_BYTES as nat) {
            Some(bytes) => parts::page_response(
                200,
                "OK"@,
                path,
                parts::nav_text(repo.name, "tree"@) + "<h1>"@ + html::escaped_text(path)
                    + "</h1><pre>"@ + html::escaped_text(text::lossy(bytes)) + "</pre>"@,
            ),
            None => parts::page_response(
                404,
                "Not Found"@,
                "blob not found"@,
                "<h1>blob not found or too large</h1>"@,
            ),
        }
    }
}

/// Render the blob page.
pub fn render_blob(repo: &Repo, req: &Request) -> (r: String)
    ensures
        r@ == blob_page(repo@, req@),
{
    let rev = query_value(req, "rev", "HEAD");
    let path = query_value(req, "path", "");
    if path.is_empty() || !safe_git_rev(rev) || !safe_git_path(path) {
        return notice(400, "Bad Request", "bad blob", "<h1>bad blob</h1>");
    }
    match blob(repo, rev, path, MAX_BLOB_BYTES) {
        Some(bytes) => {
            let mut body: String = repo_nav(repo, "tree");
            body.append("<h1>");
            append_text(&mut body, path);
            body.append("</h1><pre>");
            let contents = decode_lossy(bytes.as_slice());
            append_text(&mut body, contents.as_str());
            body.append("</pre>");
            html_response(200, "OK", page(path, body.as_str()))
        },
        None => notice(
            404,
            "Not Found",
            "blob not found",
            "<h1>blob not found or too large</h1>",
        ),
    }
}

// ---------------------------------------------------------------------------
// Commits

/// The body of a commit's page.
pub open spec fn commit_body(name: Seq<char>, c: CommitView) -> Seq<char> {
    parts::nav_text(name, "log"@) + "<h1>commit "@ + html::escaped_text(c.id)
        + "</h1><p><strong>Author:</strong> "@ + html::escaped_text(c.author)
        + "</p><p><strong>Time:</strong> "@ + html::escaped_text(
        numbers::signed_decimal(c.time as int),
    ) + "</p><p><strong>Parents:</strong> "@ + html::escaped_text(text::join(c.parents, " "@))
        + "</p><pre>"@ + html::escaped_text(c.subject) + "</pre>"@
}

/// The commit page; an unsafe revision is refused.
pub open spec fn commit_page(repo: RepoView, req: RequestView) -> Seq<char> {
    let id = parts::query_or(req, "id"@, "HEAD"@);
    if !security::git_rev_ok(id) {
        parts::page_response(400, "Bad Request"@, "bad revision"@, "<h1>bad revision</h1>"@)
    } else {
        match reader::commit_at(repo.files, id) {
            Some(c) => parts::page_response(
                200,
                "OK"@,
                "commit "@ + c.short_id,
                commit_body(repo.name, c),
            ),
            None => parts::page_response(
                404,
                "Not Found"@,
                "commit not found"@,
                "<h1>commit not found</h1>"@,
            ),
        }
    }
}

/// Render the commit page.
pub fn render_commit(repo: &Repo, req: &Request) -> (r: String)
    ensures
        r@ == commit_page(repo@, req@),
{
    let id = query_value(req, "id", "HEAD");
    if !safe_git_rev(id) {
        return notice(400, "Bad Request", "bad revision", "<h1>bad revision</h1>");
    }
    match commit(repo, id) {
        Some(c) => {
            let mut body: String = repo_nav(repo, "log");
            body.append("<h1>commit ");
            append_text(&mut body, c.id.as_str());
            body.append("</h1><p><strong>Author:</strong> ");
            append_text(&mut body, c.author.as_str());
            body.append("</p><p><strong>Time:</strong> ");
            append_time(&mut body, c.time);
            body.append("</p><p><strong>Parents:</strong> ");
            let parents = join_strings(c.parents.as_slice(), " ");
            append_text(&mut body, parents.as_str());
            body.append("</p><pre>");
            append_text(&mut body, c.subject.as_str());
            body.append("</pre>");
            let mut title: String = "commit ".to_owned();
            title.append(c.short_id.as_str());
            html_response(200, "OK", page(title.as_str(), body.as_str()))
        },
        None => notice(404, "Not Found", "commit not found", "<h1>commit not found</h1>"),
    }
}

/// What the diff page says in place of a diff.
pub const DIFF_NOTICE: &'static str = "<p class=\"muted\">Native textual diff is queued next; commit/tree/blob reading is active.</p>";

/// The diff page; an unsafe revision is refused.
pub open spec fn diff_page(repo: RepoView, req: RequestView) -> Seq<char> {
    let id = parts::query_or(req, "id"@, "HEAD"@);
    if !security::git_rev_ok(id) {
        parts::page_response(400, "Bad Request"@, "bad revision"@, "<h1>bad revision</h1>"@)
    } else {
        parts::page_response(
            200,
            "OK"@,
            "diff"@,
            parts::nav_text(repo.name, "log"@) + "<h1>diff "@ + html::escaped_text(id) + "</h1>"@
                + DIFF_NOTICE@,
        )
    }
}

/// Render the diff page.
pub fn render_diff(repo: &Repo, req: &Request) -> (r: String)
    ensures
        r@ == diff_page(repo@, req@),
{
    let id = query_value(req, "id", "HEAD");
    if !safe_git_rev(id) {
        return notice(400, "Bad Request", "bad revision", "<h1>bad revision</h1>");
    }
    let mut body: String = repo_nav(repo, "log");
    body.append("<h1>diff ");
    append_text(&mut body, id);
    body.append("</h1>");
    body.append(DIFF_NOTICE);
    html_response(200, "OK", page("diff", body.as_str()))
}

}
