//! The list of repositories, with the descriptions that a command gives.

use vstd::prelude::*;
use crate::app::parts::{self, append_text, html_response, query_value};
use crate::html::{self, attr, page, url_path};
use crate::http::{Request, RequestView};
use crate::porcelain::command;
use crate::porcelain::pages::{self, first_line, text_or_nothing};
use crate::sorted::{self, sort_by_name, Named};
use crate::text::{self, contains_str, to_lower, trimmed, Class};

verus! {

/// A repository and its description.
#[derive(Clone, Debug)]
pub struct Entry {
    /// The repository's name.
    pub name: String,
    /// The first line of its description.
    pub description: String,
}

/// What an entry holds.
pub struct EntryView {
    /// The repository's name.
    pub name: Seq<char>,
    /// The first line of its description.
    pub description: Seq<char>,
}

impl View for Entry {
    type V = EntryView;

    open spec fn view(&self) -> EntryView {
        EntryView { name: self.name@, description: self.description@ }
    }
}

impl Named for Entry {
    open spec fn name_of(v: EntryView) -> Seq<char> {
        v.name
    }

    fn sort_name(&self) -> (r: &str) {
        self.name.as_str()
    }
}

/// What each entry holds.
pub open spec fn entry_views(v: Seq<Entry>) -> Seq<EntryView> {
    v.map_values(|e: Entry| e@)
}

/// Take the description of a repository from what a command gives.
pub fn describe(name: String, output: Result<String, String>) -> (r: Entry)
    ensures
        r@.name == name@,
        r@.description == pages::first_of(
            text::trim(pages::or_nothing(command::output_view(output)), Class::Space),
        ),
{
    let raw = text_or_nothing(output);
    let bare = trimmed(raw.as_str(), Class::Space);
    Entry { name, description: first_line(bare.as_str()) }
}

/// True when the index shows a repository.
pub open spec fn shown(q: Seq<char>, e: EntryView) -> bool {
    ||| q.len() == 0
    ||| text::occurs(text::lower(e.name), text::lower(q))
    ||| text::occurs(text::lower(e.description), text::lower(q))
}

/// A row of the index.
pub open spec fn index_row(e: EntryView) -> Seq<char> {
    "<tr><td><a href=\""@ + html::escaped_attr(
        "/repo/"@ + html::path_encoded(e.name) + "/summary"@,
    ) + "\">"@ + html::escaped_text(e.name) + "</a></td><td>"@ + html::escaped_text(e.description)
        + "</td></tr>"@
}

/// The rows of the index.
pub open spec fn index_rows(q: Seq<char>, list: Seq<EntryView>) -> Seq<char>
    decreases list.len(),
{
    if list.len() == 0 {
        Seq::empty()
    } else if shown(q, list.last()) {
        index_rows(q, list.drop_last()) + index_row(list.last())
    } else {
        index_rows(q, list.drop_last())
    }
}

fn append_index_row(body: &mut String, e: &Entry)
    ensures
        final(body)@ == old(body)@ + index_row(e@),
{
    let mut target: String = "/repo/".to_owned();
    let encoded = url_path(e.name.as_str());
    target.append(encoded.as_str());
    target.append("/summary");
    let mut row: String = "<tr><td><a href=\"".to_owned();
    let quoted = attr(target.as_str());
    row.append(quoted.as_str());
    row.append("\">");
    append_text(&mut row, e.name.as_str());
    row.append("</a></td><td>");
    append_text(&mut row, e.description.as_str());
    row.append("</td></tr>");
    body.append(row.as_str());
}

fn append_index_rows(body: &mut String, q: &str, list: &Vec<Entry>)
    ensures
        final(body)@ == old(body)@ + index_rows(q@, entry_views(list@)),
{
    let lowered = to_lower(q);
    let ghost start = body@;
    let ghost all = entry_views(list@);
    let mut i: usize = 0;
    assert(body@ =~= start + index_rows(q@, all.take(0)));
    while i < list.len()
        invariant
            all == entry_views(list@),
            lowered@ == text::lower(q@),
            i <= list.len(),
            body@ == start + index_rows(q@, all.take(i as int)),
        decreases list.len() - i,
    {
        assert(all.take(i + 1).drop_last() =~= all.take(i as int));
        assert(all.take(i + 1).last() == list@[i as int]@);
        let name_small = to_lower(list[i].name.as_str());
        let line_small = to_lower(list[i].description.as_str());
        if q.is_empty() || contains_str(name_small.as_str(), lowered.as_str()) || contains_str(
            line_small.as_str(),
            lowered.as_str(),
        ) {
            append_index_row(body, &list[i]);
            assert(body@ =~= start + index_rows(q@, all.take(i + 1)));
        }
        i = i + 1;
    }
    assert(all.take(i as int) =~= all);
}

/// The index page.
pub open spec fn index_page(entries: Seq<EntryView>, req: RequestView) -> Seq<char> {
    let q = text::trim(parts::query_or(req, "q"@, ""@), Class::Space);
    parts::page_response(
        200,
        "OK"@,
        "rsgit"@,
        "<h1>rsgit</h1><p>A tiny Git browser.</p><form class=\"index-search\" method=\"get\" action=\"/\"><input name=\"q\" type=\"search\" placeholder=\"search repositories\" value=\""@
            + html::escaped_attr(q)
            + "\"><button>Search</button></form><table><tr><th>Repository</th><th>Description</th></tr>"@
            + index_rows(q, sorted::by_name::<Entry>(entries)) + "</table>"@,
    )
}

/// Render the index page.
pub fn render_index(entries: Vec<Entry>, req: &Request) -> (r: String)
    ensures
        r@ == index_page(entry_views(entries@), req@),
{
    assert(entry_views(entries@) =~= sorted::views(entries@));
    let ordered = sort_by_name(entries);
    assert(entry_views(ordered@) =~= sorted::views(ordered@));
    let q = trimmed(query_value(req, "q", ""), Class::Space);
    let mut body: String =
        "<h1>rsgit</h1><p>A tiny Git browser.</p><form class=\"index-search\" method=\"get\" action=\"/\"><input name=\"q\" type=\"search\" placeholder=\"search repositories\" value=\"".to_owned();
    let quoted = attr(q.as_str());
    body.append(quoted.as_str());
    body.append(
        "\"><button>Search</button></form><table><tr><th>Repository</th><th>Description</th></tr>",
    );
    append_index_rows(&mut body, q.as_str(), &ordered);
    body.append("</table>");
    html_response(200, "OK", page("rsgit", body.as_str()))
}

}
