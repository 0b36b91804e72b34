//! The summary page of a repository.

use vstd::prelude::*;
use crate::app::parts::{
    self, append_text, append_time, commit_anchor, html_response, public_clone_command, repo_nav,
};
use crate::git::commit::{self, CommitSummary, CommitView};
use crate::git::reader::{self, branches, recent_commits};
use crate::git::refs::{self, RefInfo, RefView};
use crate::html::{self, page};
use crate::http::{Request, RequestView};
use crate::numbers;
use crate::repo::{Repo, RepoView};
use crate::text::{self, same, strip_all_prefixes};

verus! {

/// The first commit with that id.
pub open spec fn commit_with(list: Seq<CommitView>, id: Seq<char>) -> Option<CommitView>
    decreases list.len(),
{
    if list.len() == 0 {
        None
    } else if list[0].id == id {
        Some(list[0])
    } else {
        commit_with(list.drop_first(), id)
    }
}

fn find_commit<'a>(list: &'a Vec<CommitSummary>, id: &str) -> (r: Option<&'a CommitSummary>)
    ensures
        r is Some <==> commit_with(commit::commit_views(list@), id@) is Some,
        r matches Some(c) ==> commit_with(commit::commit_views(list@), id@) == Some(c@),
{
    let ghost all = commit::commit_views(list@);
    let mut i: usize = 0;
    assert(all.skip(0) =~= all);
    while i < list.len()
        invariant
            all == commit::commit_views(list@),
            i <= list.len(),
            commit_with(all.skip(i as int), id@) == commit_with(all, id@),
        decreases list.len() - i,
    {
        assert(all.skip(i as int)[0] == list@[i as int]@);
        assert(all.skip(i as int).drop_first() =~= all.skip(i + 1));
        if same(list[i].id.as_str(), id) {
            return Some(&list[i]);
        }
        i = i + 1;
    }
    None
}

/// A row of the summary's branches: what is known of the branch's commit when
/// it is among the recent ones, and the commit's id when it is not.
pub open spec fn branch_row(branch: RefView, recent: Seq<CommitView>) -> Seq<char> {
    let label = text::strip_all(branch.name, "refs/heads/"@);
    let known = commit_with(recent, branch.oid);
    let subject = match known {
        Some(c) => c.subject,
        None => branch.oid,
    };
    let author = match known {
        Some(c) => c.author,
        None => Seq::empty(),
    };
    let age = match known {
        Some(c) => numbers::signed_decimal(c.time as int),
        None => Seq::empty(),
    };
    "<tr><td>"@ + html::escaped_text(label) + "</td><td>"@ + html::escaped_text(subject)
        + "</td><td>"@ + html::escaped_text(author) + "</td><td class=\"muted\">"@
        + html::escaped_text(age) + "</td></tr>"@
}

fn append_branch_row(body: &mut String, branch: &RefInfo, recent: &Vec<CommitSummary>)
    ensures
        final(body)@ == old(body)@ + branch_row(branch@, commit::commit_views(recent@)),
{
    let label = strip_all_prefixes(branch.name.as_str(), "refs/heads/");
    let mut row: String = "<tr><td>".to_owned();
    append_text(&mut row, label.as_str());
    row.append("</td><td>");
    match find_commit(recent, branch.oid.as_str()) {
        Some(c) => {
            append_text(&mut row, c.subject.as_str());
            row.append("</td><td>");
            append_text(&mut row, c.author.as_str());
            row.append("</td><td class=\"muted\">");
            append_time(&mut row, c.time);
        },
        None => {
            append_text(&mut row, branch.oid.as_str());
            row.append("</td><td>");
            let none = String::new();
            assert(none@ =~= Seq::<char>::empty());
            append_text(&mut row, none.as_str());
            row.append("</td><td class=\"muted\">");
            append_text(&mut row, none.as_str());
        },
    }
    row.append("</td></tr>");
    body.append(row.as_str());
}

/// The rows of the summary's branches.
pub open spec fn branch_rows(list: Seq<RefView>, recent: Seq<CommitView>) -> Seq<char>
    decreases list.len(),
{
    if list.len() == 0 {
        Seq::empty()
    } else {
        branch_rows(list.drop_last(), recent) + branch_row(list.last(), recent)
    }
}

/// A row of the summary's commits.
pub open spec fn recent_row(name: Seq<char>, c: CommitView) -> Seq<char> {
    "<tr><td>"@ + html::escaped_text(numbers::signed_decimal(c.time as int)) + "</td><td>"@
        + parts::commit_link(name, c.id, c.subject) + "</td><td>"@ + html::escaped_text(c.author)
        + "</td></tr>"@
}

/// The rows of the summary's commits.
pub open spec fn recent_rows(name: Seq<char>, list: Seq<CommitView>) -> Seq<char>
    decreases list.len(),
{
    if list.len() == 0 {
        Seq::empty()
    } else {
        recent_rows(name, list.drop_last()) + recent_row(name, list.last())
    }
}

fn append_recent_row(body: &mut String, name: &str, c: &CommitSummary)
    ensures
        final(body)@ == old(body)@ + recent_row(name@, c@),
{
    let mut row: String = "<tr><td>".to_owned();
    append_time(&mut row, c.time);
    row.append("</td><td>");
    let link = commit_anchor(name, c.id.as_str(), c.subject.as_str());
    row.append(link.as_str());
    row.append("</td><td>");
    append_text(&mut row, c.author.as_str());
    row.append("</td></tr>");
    body.append(row.as_str());
}

/// How many branches the summary shows.
pub const SUMMARY_BRANCHES: usize = 8;

/// How many commits the summary shows.
pub const SUMMARY_COMMITS: usize = 10;

/// The branches that the summary shows.
pub open spec fn summary_branches(repo: RepoView) -> Seq<RefView> {
    let all = reader::branches_in(refs::listing(refs::all_refs(repo.files)));
    if all.len() > SUMMARY_BRANCHES {
        all.take(SUMMARY_BRANCHES as int)
    } else {
        all
    }
}

/// The body of the summary page.
pub open spec fn summary_body(repo: RepoView, command: Seq<char>) -> Seq<char> {
    let recent = reader::history(repo.files, SUMMARY_COMMITS as nat);
    parts::nav_text(repo.name, "summary"@)
        + "<section class=\"summary-block\"><table><tr><th>Branch</th><th>Commit message</th><th>Author</th><th>Age</th></tr>"@
        + branch_rows(summary_branches(repo), recent)
        + "</table></section><section class=\"summary-block\"><table><tr><th>Age</th><th>Commit message</th><th>Author</th></tr>"@
        + recent_rows(repo.name, recent) + "</table></section>"@
        + "<section class=\"summary-block\"><h2>Clone</h2><div class=\"clone-url\">"@
        + html::escaped_text(command) + "</div></section>"@
}

/// The summary page.
pub open spec fn summary_page(
    public_base: Option<Seq<char>>,
    repo: RepoView,
    req: RequestView,
) -> Seq<char> {
    parts::page_response(
        200,
        "OK"@,
        repo.name,
        summary_body(repo, parts::clone_command(public_base, req.host, repo.name)),
    )
}

/// Append the branches' rows to `body`.
fn append_branch_rows(body: &mut String, list: &Vec<RefInfo>, recent: &Vec<CommitSummary>)
    ensures
        final(body)@ == old(body)@ + branch_rows(
            (if list@.len() > SUMMARY_BRANCHES {
                refs::ref_views(list@).take(SUMMARY_BRANCHES as int)
            } else {
                refs::ref_views(list@)
            }),
            commit::commit_views(recent@),
        ),
{
    let ghost start = body@;
    let ghost all = refs::ref_views(list@);
    let ghost known = commit::commit_views(recent@);
    let end: usize = if list.len() > SUMMARY_BRANCHES {
        SUMMARY_BRANCHES
    } else {
        list.len()
    };
    let mut i: usize = 0;
    assert(body@ =~= start + branch_rows(all.take(0), known));
    while i < end
        invariant
            all == refs::ref_views(list@),
            known == commit::commit_views(recent@),
            i <= end <= list.len(),
            body@ == start + branch_rows(all.take(i as int), known),
        decreases end - i,
    {
        assert(all.take(i + 1).drop_last() =~= all.take(i as int));
        assert(all.take(i + 1).last() == list@[i as int]@);
        append_branch_row(body, &list[i], recent);
        assert(body@ =~= start + branch_rows(all.take(i + 1), known));
        i = i + 1;
    }
    assert(list@.len() <= SUMMARY_BRANCHES ==> all.take(i as int) =~= all);
}

/// Append the commits' rows to `body`.
fn append_recent_rows(body: &mut String, name: &str, list: &Vec<CommitSummary>)
    ensures
        final(body)@ == old(body)@ + recent_rows(name@, commit::commit_views(list@)),
{
    let ghost start = body@;
    let ghost all = commit::commit_views(list@);
    let mut i: usize = 0;
    assert(body@ =~= start + recent_rows(name@, all.take(0)));
    while i < list.len()
        invariant
            all == commit::commit_views(list@),
            i <= list.len(),
            body@ == start + recent_rows(name@, all.take(i as int)),
        decreases list.len() - i,
    {
        assert(all.take(i + 1).drop_last() =~= all.take(i as int));
        assert(all.take(i + 1).last() == list@[i as int]@);
        append_recent_row(body, name, &list[i]);
        assert(body@ =~= start + recent_rows(name@, all.take(i + 1)));
        i = i + 1;
    }
    assert(all.take(i as int) =~= all);
}

/// Render the summary page.
pub fn render_summary(public_base: Option<&str>, repo: &Repo, req: &Request) -> (r: String)
    ensures
        r@ == summary_page(
            match public_base {
                Some(b) => Some(b@),
                None => None,
            },
            repo@,
            req@,
        ),
{
    let recent = recent_commits(repo, SUMMARY_COMMITS);
    let list = branches(repo);
    assert(refs::ref_views(list@).len() == list@.len());
    let mut body: String = repo_nav(repo, "summary");
    body.append(
        "<section class=\"summary-block\"><table><tr><th>Branch</th><th>Commit message</th><th>Author</th><th>Age</th></tr>",
    );
    append_branch_rows(&mut body, &list, &recent);
    body.append(
        "</table></section><section class=\"summary-block\"><table><tr><th>Age</th><th>Commit message</th><th>Author</th></tr>",
    );
    append_recent_rows(&mut body, repo.name(), &recent);
    body.append("</table></section>");
    body.append("<section class=\"summary-block\"><h2>Clone</h2><div class=\"clone-url\">");
    let command = public_clone_command(public_base, repo, req);
    append_text(&mut body, command.as_str());
    body.append("</div></section>");
    html_response(200, "OK", page(repo.name(), body.as_str()))
}

}
