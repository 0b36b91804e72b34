//! The page that lists the repositories.

use vstd::prelude::*;
use crate::app::parts::{self, append_text, html_response, query_value};
use crate::git::reader::{self, description};
use crate::html::{self, attr, page, url_path};
use crate::http::{Request, RequestView};
use crate::repo::{self, Repo, RepoView};
use crate::sorted::{self, sort_by_name};
use crate::text::{self, contains_str, to_lower, trimmed, Class};

verus! {

/// True when the index shows a repository: its name or its description holds
/// the query, small and capital letters being one.
pub open spec fn shown(q: Seq<char>, r: RepoView) -> bool {
    ||| q.len() == 0
    ||| text::occurs(text::lower(r.name), text::lower(q))
    ||| text::occurs(text::lower(reader::description_of(r.files)), text::lower(q))
}

/// A row of the index.
pub open spec fn index_row(r: RepoView) -> Seq<char> {
    "<tr><td><a href=\"/repo/"@ + html::escaped_attr(html::path_encoded(r.name))
        + "/summary\">"@ + html::escaped_text(r.name) + "</a></td><td>"@ + html::escaped_text(
        reader::description_of(r.files),
    ) + "</td></tr>"@
}

/// The rows of the index.
pub open spec fn index_rows(q: Seq<char>, list: Seq<RepoView>) -> Seq<char>
    decreases list.len(),
{
    if list.len() == 0 {
        Seq::empty()
    } else if shown(q, list.last()) {
        index_rows(q, list.drop_last()) + index_row(list.last())
    } else {
        index_rows(q, list.drop_last())
    }
}

/// The index page over the repositories found.
pub open spec fn index_page(repos: Seq<RepoView>, req: RequestView) -> Seq<char> {
    let q = text::trim(parts::query_or(req, "q"@, ""@), Class::Space);
    parts::page_response(
        200,
        "OK"@,
        "rsgit"@,
        "<h1>rsgit</h1><p>A tiny Git browser.</p><form class=\"index-search\" method=\"get\" action=\"/\"><input name=\"q\" type=\"search\" placeholder=\"search repositories\" value=\""@
            + html::escaped_attr(q)
            + "\"><button>Search</button></form><table><tr><th>Repository</th><th>Description</th></tr>"@
            + index_rows(q, sorted::by_name::<Repo>(repos)) + "</table>"@,
    )
}

fn append_index_row(body: &mut String, r: &Repo, desc: &str)
    requires
        desc@ == reader::description_of(r@.files),
    ensures
        final(body)@ == old(body)@ + index_row(r@),
{
    let mut row: String = "<tr><td><a href=\"/repo/".to_owned();
    let encoded = url_path(r.name());
    let quoted = attr(encoded.as_str());
    row.append(quoted.as_str());
    row.append("/summary\">");
    append_text(&mut row, r.name());
    row.append("</a></td><td>");
    append_text(&mut row, desc);
    row.append("</td></tr>");
    body.append(row.as_str());
}

fn append_index_rows(body: &mut String, q: &str, list: &Vec<Repo>)
    ensures
        final(body)@ == old(body)@ + index_rows(q@, repo::repo_views(list@)),
{
    let lowered = to_lower(q);
    let ghost start = body@;
    let ghost all = repo::repo_views(list@);
    let mut i: usize = 0;
    assert(body@ =~= start + index_rows(q@, all.take(0)));
    while i < list.len()
        invariant
            all == repo::repo_views(list@),
            lowered@ == text::lower(q@),
            i <= list.len(),
            body@ == start + index_rows(q@, all.take(i as int)),
        decreases list.len() - i,
    {
        assert(all.take(i + 1).drop_last() =~= all.take(i as int));
        assert(all.take(i + 1).last() == list@[i as int]@);
        let desc = description(&list[i]);
        let name_small = to_lower(list[i].name());
        let desc_small = to_lower(desc.as_str());
        if q.is_empty() || contains_str(name_small.as_str(), lowered.as_str()) || contains_str(
            desc_small.as_str(),
            lowered.as_str(),
        ) {
            append_index_row(body, &list[i], desc.as_str());
            assert(body@ =~= start + index_rows(q@, all.take(i + 1)));
        }
        i = i + 1;
    }
    assert(all.take(i as int) =~= all);
}

/// Render the index page over the repositories found.
pub fn render_index(repos: Vec<Repo>, req: &Request) -> (r: String)
    ensures
        r@ == index_page(repo::repo_views(repos@), req@),
{
    assert(repo::repo_views(repos@) =~= sorted::views(repos@));
    let ordered = sort_by_name(repos);
    assert(repo::repo_views(ordered@) =~= sorted::views(ordered@));
    let q = trimmed(query_value(req, "q", ""), Class::Space);
    let mut body: String =
        "<h1>rsgit</h1><p>A tiny Git browser.</p><form class=\"index-search\" method=\"get\" action=\"/\"><input name=\"q\" type=\"search\" placeholder=\"search repositories\" value=\"".to_owned();
    let quoted = attr(q.as_str());
    body.append(quoted.as_str());
    body.append(
        "\"><button>Search</button></form><table><tr><th>Repository</th><th>Description</th></tr>",
    );
    append_index_rows(&mut body, q.as_str(), &ordered);
    body.append("</table>");
    html_response(200, "OK", page("rsgit", body.as_str()))
}

}
