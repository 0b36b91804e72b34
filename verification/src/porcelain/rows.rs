//! Tables over lines of columns.

use vstd::prelude::*;
use crate::app::parts::append_text;
use crate::html::{self, attr, url_path, url_query};
use crate::text::{self, same, split_at_char, split_lines, split_pair, trimmed, Class};

verus! {

/// The first `n` columns of a line; the last of them holds all that is left.
pub open spec fn columns(line: Seq<char>, n: nat) -> Seq<Seq<char>>
    decreases n,
{
    if n == 0 {
        Seq::empty()
    } else if n == 1 {
        seq![line]
    } else {
        match text::split_once(line, '\t') {
            Some(p) => seq![p.0] + columns(p.1, (n - 1) as nat),
            None => seq![line],
        }
    }
}

/// Split a line into at most `n` columns.
pub fn split_columns(line: &str, n: usize) -> (r: Vec<String>)
    ensures
        text::views(r@) == columns(line@, n as nat),
{
    let mut out: Vec<String> = Vec::new();
    let mut rest: String = line.to_owned();
    let mut left: usize = n;
    assert(text::views(out@) + columns(rest@, left as nat) =~= columns(line@, n as nat));
    while left > 1
        invariant
            left <= n,
            n > 0 ==> left > 0,
            text::views(out@) + columns(rest@, left as nat) == columns(line@, n as nat),
        decreases left,
    {
        let ghost before = out@;
        match split_pair(rest.as_str(), '\t') {
            Some((first, tail)) => {
                let ghost head = first@;
                out.push(first);
                assert(text::views(out@) =~= text::views(before).push(head));
                assert(text::views(out@) + columns(tail@, (left - 1) as nat) =~= text::views(before)
                    + (seq![head] + columns(tail@, (left - 1) as nat)));
                rest = tail;
                left = left - 1;
            },
            None => {
                let ghost last = rest@;
                out.push(rest);
                assert(text::views(out@) =~= text::views(before) + seq![last]);
                return out;
            },
        }
    }
    if left == 1 {
        let ghost before = out@;
        let ghost last = rest@;
        out.push(rest);
        assert(text::views(out@) =~= text::views(before) + seq![last]);
    } else {
        assert(text::views(out@) + columns(rest@, 0) =~= text::views(out@));
    }
    out
}

/// A table that is made of lines of columns.
#[derive(Clone, Copy, Debug, PartialEq, Eq, Structural)]
pub enum Table {
    /// The branches of a summary: name, id, subject, author and age.
    Branches,
    /// The commits of a summary: date, id, refs, subject and author.
    Recent,
    /// The commits of a log: id, date, author and subject.
    Log,
    /// The commits found: date, id, subject and author.
    Found,
}

/// How many columns the lines have.
pub open spec fn width(table: Table) -> nat {
    match table {
        Table::Branches => 5,
        Table::Recent => 5,
        Table::Log => 4,
        Table::Found => 4,
    }
}

fn width_of(table: Table) -> (r: usize)
    ensures
        r == width(table),
{
    match table {
        Table::Branches => 5,
        Table::Recent => 5,
        Table::Log => 4,
        Table::Found => 4,
    }
}

/// A link to a page of a repository.
pub open spec fn page_link(
    name: Seq<char>,
    page: Seq<char>,
    value: Seq<char>,
    label: Seq<char>,
) -> Seq<char> {
    "<a href=\""@ + html::escaped_attr("/repo/"@ + html::path_encoded(name) + page + value)
        + "\">"@ + html::escaped_text(label) + "</a>"@
}

fn page_anchor(name: &str, page: &str, value: &str, label: &str) -> (r: String)
    ensures
        r@ == page_link(name@, page@, value@, label@),
{
    let mut target: String = "/repo/".to_owned();
    let encoded = url_path(name);
    target.append(encoded.as_str());
    target.append(page);
    target.append(value);
    let mut out: String = "<a href=\"".to_owned();
    let quoted = attr(target.as_str());
    out.append(quoted.as_str());
    out.append("\">");
    append_text(&mut out, label);
    out.append("</a>");
    out
}

/// A mark for a ref.
pub open spec fn ref_mark(item: Seq<char>) -> Seq<char> {
    " "@ + "<span class=\""@ + (if item == "HEAD"@ {
        "ref head"@
    } else {
        "ref"@
    }) + "\">"@ + html::escaped_text(item) + "</span>"@
}

/// The marks for the refs between commas.
pub open spec fn ref_marks(items: Seq<Seq<char>>) -> Seq<char>
    decreases items.len(),
{
    if items.len() == 0 {
        Seq::empty()
    } else {
        let item = text::trim(items.last(), Class::Space);
        if item.len() == 0 {
            ref_marks(items.drop_last())
        } else {
            ref_marks(items.drop_last()) + ref_mark(item)
        }
    }
}

/// Render the refs that a commit carries.
pub fn render_refs(raw: &str) -> (r: String)
    ensures
        r@ == ref_marks(text::split(raw@, ',')),
{
    let items = split_at_char(raw, ',');
    let ghost all = text::views(items@);
    let mut out = String::new();
    let mut i: usize = 0;
    assert(out@ =~= ref_marks(all.take(0)));
    while i < items.len()
        invariant
            all == text::views(items@),
            i <= items.len(),
            out@ == ref_marks(all.take(i as int)),
        decreases items.len() - i,
    {
        assert(all.take(i + 1).drop_last() =~= all.take(i as int));
        assert(all.take(i + 1).last() == items@[i as int]@);
        let trimmed_item = trimmed(items[i].as_str(), Class::Space);
        let item = trimmed_item.as_str();
        if !item.is_empty() {
            let mut mark: String = " ".to_owned();
            mark.append("<span class=\"");
            if same(item, "HEAD") {
                mark.append("ref head");
            } else {
                mark.append("ref");
            }
            mark.append("\">");
            append_text(&mut mark, item);
            mark.append("</span>");
            out.append(mark.as_str());
        }
        i = i + 1;
    }
    assert(all.take(i as int) =~= all);
    out
}

/// A row of a table.
pub open spec fn row(table: Table, name: Seq<char>, c: Seq<Seq<char>>) -> Seq<char> {
    match table {
        Table::Branches => "<tr><td>"@ + page_link(
            name,
            "/log?rev="@,
            html::query_encoded(c[0]),
            c[0],
        ) + "</td><td>"@ + html::escaped_text(c[2]) + "</td><td>"@ + html::escaped_text(c[3])
            + "</td><td class=\"muted\">"@ + html::escaped_text(c[4]) + "</td></tr>"@,
        Table::Recent => "<tr><td>"@ + html::escaped_text(c[0]) + "</td><td>"@ + page_link(
            name,
            "/commit?id="@,
            html::query_encoded(c[1]),
            c[3],
        ) + ref_marks(text::split(c[2], ',')) + "</td><td>"@ + html::escaped_text(c[4])
            + "</td></tr>"@,
        Table::Log => "<tr><td>"@ + page_link(name, "/commit?id="@, c[0], c[0]) + "</td><td>"@
            + html::escaped_text(c[1]) + "</td><td>"@ + html::escaped_text(c[2]) + "</td><td>"@
            + html::escaped_text(c[3]) + "</td></tr>"@,
        Table::Found => "<tr><td>"@ + html::escaped_text(c[0]) + "</td><td>"@ + page_link(
            name,
            "/commit?id="@,
            html::query_encoded(c[1]),
            c[2],
        ) + "</td><td>"@ + html::escaped_text(c[3]) + "</td></tr>"@,
    }
}

/// The rows of a table: a line with too few columns has none.
pub open spec fn rows(table: Table, name: Seq<char>, lines: Seq<Seq<char>>) -> Seq<char>
    decreases lines.len(),
{
    if lines.len() == 0 {
        Seq::empty()
    } else {
        let rest = rows(table, name, lines.drop_last());
        let c = columns(lines.last(), width(table));
        if c.len() == width(table) {
            rest + row(table, name, c)
        } else {
            rest
        }
    }
}

fn append_row(body: &mut String, table: Table, name: &str, c: &Vec<String>)
    requires
        c@.len() == width(table),
    ensures
        final(body)@ == old(body)@ + row(table, name@, text::views(c@)),
{
    let ghost v = text::views(c@);
    assert(v[0] == c@[0]@ && v[1] == c@[1]@ && v[2] == c@[2]@ && v[3] == c@[3]@);
    let mut line: String = "<tr><td>".to_owned();
    match table {
        Table::Branches => {
            assert(v[4] == c@[4]@);
            let value = url_query(c[0].as_str());
            let link = page_anchor(name, "/log?rev=", value.as_str(), c[0].as_str());
            line.append(link.as_str());
            line.append("</td><td>");
            append_text(&mut line, c[2].as_str());
            line.append("</td><td>");
            append_text(&mut line, c[3].as_str());
            line.append("</td><td class=\"muted\">");
            append_text(&mut line, c[4].as_str());
        },
        Table::Recent => {
            assert(v[4] == c@[4]@);
            append_text(&mut line, c[0].as_str());
            line.append("</td><td>");
            let value = url_query(c[1].as_str());
            let link = page_anchor(name, "/commit?id=", value.as_str(), c[3].as_str());
            line.append(link.as_str());
            let marks = render_refs(c[2].as_str());
            line.append(marks.as_str());
            line.append("</td><td>");
            append_text(&mut line, c[4].as_str());
        },
        Table::Log => {
            let link = page_anchor(name, "/commit?id=", c[0].as_str(), c[0].as_str());
            line.append(link.as_str());
            line.append("</td><td>");
            append_text(&mut line, c[1].as_str());
            line.append("</td><td>");
            append_text(&mut line, c[2].as_str());
            line.append("</td><td>");
            append_text(&mut line, c[3].as_str());
        },
        Table::Found => {
            append_text(&mut line, c[0].as_str());
            line.append("</td><td>");
            let value = url_query(c[1].as_str());
            let link = page_anchor(name, "/commit?id=", value.as_str(), c[2].as_str());
            line.append(link.as_str());
            line.append("</td><td>");
            append_text(&mut line, c[3].as_str());
        },
    }
    line.append("</td></tr>");
    body.append(line.as_str());
}

/// Append the rows of a table to `body`.
pub fn append_rows(body: &mut String, table: Table, name: &str, output: &str)
    ensures
        final(body)@ == old(body)@ + rows(table, name@, text::lines(output@)),
{
    let lines = split_lines(output);
    let ghost start = body@;
    let ghost all = text::views(lines@);
    let n: usize = width_of(table);
    let mut i: usize = 0;
    assert(body@ =~= start + rows(table, name@, all.take(0)));
    while i < lines.len()
        invariant
            all == text::views(lines@),
            n == width(table),
            i <= lines.len(),
            body@ == start + rows(table, name@, all.take(i as int)),
        decreases lines.len() - i,
    {
        assert(all.take(i + 1).drop_last() =~= all.take(i as int));
        assert(all.take(i + 1).last() == lines@[i as int]@);
        let c = split_columns(lines[i].as_str(), n);
        assert(text::views(c@).len() == c@.len());
        if c.len() == n {
            append_row(body, table, name, &c);
            assert(body@ =~= start + rows(table, name@, all.take(i + 1)));
        }
        i = i + 1;
    }
    assert(all.take(i as int) =~= all);
}

}
