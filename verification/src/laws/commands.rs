//! Commands: what a command prints is what a page shows.

use vstd::prelude::*;
use vstd::utf8::*;
use crate::app::parts;
use crate::html;
use crate::http::RequestView;
use crate::laws::overview::{holds, index_head, lemma_holds};
use crate::laws::pages::{self, asks, cell, concat, faint, row, shows};
use crate::laws::views::{asked_id, asked_path, asked_rev};
use crate::laws::requests::{self, is_word};
use crate::laws::{admission, browsing, lists, texts};
use crate::porcelain::command::{self, Ending, Fault, Wait};
use crate::porcelain::index::{self as entries, Entry, EntryView};
use crate::porcelain::pages as shown;
use crate::porcelain::rows::{self, Table};
use crate::repo::RepoView;
use crate::sorted;
use crate::text::{self, Class};

verus! {

// ---------------------------------------------------------------------------
// Output

/// An output that is not longer than is allowed is kept whole; of a longer one, as
/// much as is allowed is kept from its start.
pub proof fn law_output_is_kept_from_its_start(a: Seq<u8>, b: Seq<u8>)
    ensures
        command::cut(a + b, a.len()) == a,
        command::cut(a, a.len() + b.len()) == a,
{
    assert((a + b).take(a.len() as int) =~= a);
    if b.len() == 0 {
        assert(a + b =~= a);
    }
}

/// The pieces of an output come in their order.
pub proof fn law_pieces_come_in_order(pieces: Seq<Vec<u8>>, next: Vec<u8>)
    ensures
        command::concat(Seq::empty()) == Seq::<u8>::empty(),
        command::concat(pieces.push(next)) == command::concat(pieces) + next@,
{
    assert(pieces.push(next).drop_last() =~= pieces);
}

/// A command that has ended is waited for no longer; one that runs is ended after
/// five seconds and no sooner.
pub proof fn law_command_has_five_seconds(success: bool, nanos: u128)
    ensures
        command::wait_for(Some(success), nanos) == Wait::Ended(success),
        nanos <= 5 * 1000 * 1000 * 1000 ==> command::wait_for(None, nanos) == Wait::Again,
        nanos > 5 * 1000 * 1000 * 1000 ==> command::wait_for(None, nanos) == Wait::TimedOut,
        command::MAX_GIT_OUTPUT_BYTES == 2 * 1024 * 1024,
        command::MAX_GIT_ERROR_BYTES == 64 * 1024,
{
}

/// A command that succeeds gives the text that it printed; one whose output is cut
/// off, that fails, that runs too long or that breaks gives a reason.
pub proof fn law_command_gives_what_it_printed(ending: Ending, s: Seq<char>)
    ensures
        ending matches Ending::Finished { out, truncated: false, success: true } && out@
            == encode_utf8(s) ==> command::output_of(ending) == Ok::<Seq<char>, Seq<char>>(s),
        ending matches Ending::Finished { out: _, truncated: true, success: _ }
            ==> command::output_of(ending) == Err::<Seq<char>, Seq<char>>("git output too large"@),
        ending matches Ending::Finished { out: _, truncated: false, success: false }
            ==> command::output_of(ending) == Err::<Seq<char>, Seq<char>>("git command failed"@),
        ending is TimedOut ==> command::output_of(ending) == Err::<Seq<char>, Seq<char>>(
            "git command timed out"@,
        ),
        ending matches Ending::NotStarted(reason) ==> command::output_of(ending) == Err::<
            Seq<char>,
            Seq<char>,
        >("failed to execute git: "@ + reason@),
        ending is Broken ==> command::output_of(ending) is Err,
{
    encode_utf8_valid_utf8(s);
    encode_utf8_decode_utf8(s);
}

/// What went wrong with a command is told in words of its own.
pub proof fn law_faults_are_told(fault: Fault)
    ensures
        command::output_of(Ending::Broken(fault)) == Err::<Seq<char>, Seq<char>>(
            match fault {
                Fault::NoOutput => "missing git stdout"@,
                Fault::NoErrorOutput => "missing git stderr"@,
                Fault::Wait => "git wait failed"@,
                Fault::OutputReader => "git stdout reader failed"@,
                Fault::OutputRead => "git stdout read failed"@,
                Fault::ErrorReader => "git stderr reader failed"@,
                Fault::ErrorRead => "git stderr read failed"@,
            },
        ),
{
}

/// Of a command that fails it is reported where and with what words, and of any
/// other nothing.
pub proof fn law_failures_are_reported(
    name: Seq<char>,
    ending: Ending,
    a: Seq<char>,
    said: Seq<char>,
    b: Seq<char>,
)
    requires
        texts::all_blank(a),
        texts::all_blank(b),
        said.len() > 0 ==> !texts::blank(said[0]) && !texts::blank(said.last()),
    ensures
        command::report_of(name, ending, encode_utf8(a + said + b)) == (match ending {
            Ending::Finished { out: _, truncated, success } => if !truncated && !success {
                Some("git command failed for repo "@ + name + ": "@ + said)
            } else {
                None
            },
            _ => None,
        }),
{
    texts::law_blanks_around_are_taken_off(a, said, b);
    encode_utf8_valid_utf8(a + said + b);
    encode_utf8_decode_utf8(a + said + b);
}

/// A command is told where the repository is before anything else, and then what it
/// is to do.
pub proof fn law_command_is_told_the_repository(
    repo: RepoView,
    path: Seq<char>,
    args: Seq<Seq<char>>,
)
    ensures
        repo.bare ==> command::arguments_of(repo, path, args) == seq!["--git-dir"@, path] + args,
        !repo.bare ==> command::arguments_of(repo, path, args) == seq!["-C"@, path] + args,
{
}

/// A path is named behind its revision.
pub proof fn law_path_is_named_behind_revision(rev: Seq<char>, path: Seq<char>)
    ensures
        path.len() > 0 ==> command::object_name(rev, path) == rev + seq![':'] + path,
        command::object_name(rev, Seq::empty()) == rev,
{
    reveal_strlit(":");
    assert(":"@ =~= seq![':']);
}

// ---------------------------------------------------------------------------
// Tables

/// True when a list of columns can be told from the line that it makes: tabs stand
/// in the last of so many columns alone.
pub open spec fn tellable(c: Seq<Seq<char>>, n: nat) -> bool {
    &&& 0 < c.len() <= n
    &&& forall|i: int| 0 <= i < c.len() - 1 ==> !(#[trigger] c[i]).contains('\t')
    &&& c.len() < n ==> !c.last().contains('\t')
}

/// A line is split into the columns that make it.
pub proof fn law_columns_are_told(c: Seq<Seq<char>>, n: nat)
    requires
        tellable(c, n),
    ensures
        rows::columns(text::join(c, seq!['\t']), n) == c,
    decreases c.len(),
{
    let tab = seq!['\t'];
    let line = text::join(c, tab);
    let first = c[0];
    if c.len() == 1 {
        assert(c =~= seq![first]);
        reveal_with_fuel(text::join, 2);
        assert(line =~= first);
        if n > 1 {
            assert forall|j: int| 0 <= j < line.len() implies line[j] != '\t' by {
                assert(first.contains(first[j]));
            }
            text::lemma_until_is(line, '\t', line.len() as int);
        }
    } else {
        let rest = c.drop_first();
        text::lemma_join_first(c, tab);
        assert forall|i: int| 0 <= i < rest.len() - 1 implies !(#[trigger] rest[i]).contains(
            '\t',
        ) by {
            assert(rest[i] == c[i + 1]);
        }
        assert(rest.last() == c.last());
        law_columns_are_told(rest, (n - 1) as nat);
        let k = first.len() as int;
        let tail = text::join(rest, tab);
        assert(line =~= first + tab + tail);
        assert forall|j: int| 0 <= j < k implies line[j] != '\t' by {
            assert(line[j] == first[j]);
            assert(first.contains(first[j]));
        }
        assert(line[k] == '\t');
        text::lemma_until_is(line, '\t', k);
        assert(line.take(k) =~= first);
        assert(line.skip(k + 1) =~= tail);
        assert(seq![first] + rest =~= c);
    }
}

/// How many columns the lines of a table have.
pub open spec fn columns_of(table: Table) -> nat {
    match table {
        Table::Branches => 5,
        Table::Recent => 5,
        Table::Log => 4,
        Table::Found => 4,
    }
}

/// A link: where it leads to, and what it shows.
pub open spec fn anchor(target: Seq<char>, label: Seq<char>) -> Seq<char> {
    "<a href=\""@ + html::escaped_attr(target) + "\">"@ + html::escaped_text(label) + "</a>"@
}

/// Where a page of a repository lives.
pub open spec fn address(name: Seq<char>, page: Seq<char>, value: Seq<char>) -> Seq<char> {
    "/repo/"@ + html::path_encoded(name) + page + value
}

/// The row that a line of a table makes.
pub open spec fn table_line(table: Table, name: Seq<char>, c: Seq<Seq<char>>) -> Seq<char> {
    match table {
        Table::Branches => row(
            seq![
                cell(anchor(address(name, "/log?rev="@, html::query_encoded(c[0])), c[0])),
                cell(html::escaped_text(c[2])),
                cell(html::escaped_text(c[3])),
                faint(html::escaped_text(c[4])),
            ],
        ),
        Table::Recent => row(
            seq![
                cell(html::escaped_text(c[0])),
                cell(
                    anchor(address(name, "/commit?id="@, html::query_encoded(c[1])), c[3])
                        + rows::ref_marks(text::split(c[2], ',')),
                ),
                cell(html::escaped_text(c[4])),
            ],
        ),
        Table::Log => row(
            seq![
                cell(anchor(address(name, "/commit?id="@, c[0]), c[0])),
                cell(html::escaped_text(c[1])),
                cell(html::escaped_text(c[2])),
                cell(html::escaped_text(c[3])),
            ],
        ),
        Table::Found => row(
            seq![
                cell(html::escaped_text(c[0])),
                cell(anchor(address(name, "/commit?id="@, html::query_encoded(c[1])), c[2])),
                cell(html::escaped_text(c[3])),
            ],
        ),
    }
}

proof fn lemma_table_line(table: Table, name: Seq<char>, c: Seq<Seq<char>>)
    ensures
        rows::row(table, name, c) == table_line(table, name, c),
{
    match table {
        Table::Branches => {
            crate::laws::overview::lemma_faint_row(
                anchor(address(name, "/log?rev="@, html::query_encoded(c[0])), c[0]),
                html::escaped_text(c[2]),
                html::escaped_text(c[3]),
                html::escaped_text(c[4]),
            );
        },
        Table::Recent => {
            let link = anchor(address(name, "/commit?id="@, html::query_encoded(c[1])), c[3]);
            let marks = rows::ref_marks(text::split(c[2], ','));
            pages::lemma_three_cells(
                html::escaped_text(c[0]),
                link + marks,
                html::escaped_text(c[4]),
            );
            lemma_inner(
                "<tr><td>"@ + html::escaped_text(c[0]) + "</td><td>"@,
                link,
                marks,
                "</td><td>"@,
                html::escaped_text(c[4]),
                "</td></tr>"@,
            );
        },
        Table::Log => {
            pages::lemma_four_cells(
                anchor(address(name, "/commit?id="@, c[0]), c[0]),
                html::escaped_text(c[1]),
                html::escaped_text(c[2]),
                html::escaped_text(c[3]),
            );
        },
        Table::Found => {
            pages::lemma_three_cells(
                html::escaped_text(c[0]),
                anchor(address(name, "/commit?id="@, html::query_encoded(c[1])), c[2]),
                html::escaped_text(c[3]),
            );
        },
    }
}

proof fn lemma_inner(
    a: Seq<char>,
    b: Seq<char>,
    c: Seq<char>,
    d: Seq<char>,
    e: Seq<char>,
    f: Seq<char>,
)
    ensures
        a + b + c + d + e + f == a + (b + c) + d + e + f,
{
    assert(a + b + c =~= a + (b + c));
}

/// The rows of a table: one for each line with enough columns, in their order.
pub proof fn law_table_shows_lines(table: Table, name: Seq<char>, list: Seq<Seq<Seq<char>>>)
    requires
        forall|i: int| 0 <= i < list.len() ==> tellable(#[trigger] list[i], columns_of(table)),
    ensures
        rows::rows(
            table,
            name,
            list.map_values(|c: Seq<Seq<char>>| text::join(c, seq!['\t'])),
        ) == concat(
            list.filter(|c: Seq<Seq<char>>| c.len() == columns_of(table)).map_values(
                |c: Seq<Seq<char>>| table_line(table, name, c),
            ),
        ),
    decreases list.len(),
{
    reveal(Seq::filter);
    let lines = list.map_values(|c: Seq<Seq<char>>| text::join(c, seq!['\t']));
    let some = list.filter(|c: Seq<Seq<char>>| c.len() == columns_of(table));
    let made = some.map_values(|c: Seq<Seq<char>>| table_line(table, name, c));
    if list.len() > 0 {
        let rest = list.drop_last();
        let c = list[list.len() - 1];
        assert forall|i: int| 0 <= i < rest.len() implies tellable(
            #[trigger] rest[i],
            columns_of(table),
        ) by {
            assert(rest[i] == list[i]);
        }
        law_table_shows_lines(table, name, rest);
        assert(lines.drop_last() =~= rest.map_values(
            |c: Seq<Seq<char>>| text::join(c, seq!['\t']),
        ));
        assert(tellable(c, columns_of(table)));
        law_columns_are_told(c, columns_of(table));
        lemma_table_line(table, name, c);
        let fewer = rest.filter(|c: Seq<Seq<char>>| c.len() == columns_of(table));
        if c.len() == columns_of(table) {
            assert(some == fewer.push(c));
            assert(made.drop_last() =~= fewer.map_values(
                |c: Seq<Seq<char>>| table_line(table, name, c),
            ));
            assert(made.last() == table_line(table, name, c));
        } else {
            assert(some == fewer);
        }
    } else {
        assert(lines =~= Seq::empty());
        assert(made =~= Seq::empty());
    }
}

/// The mark of a ref; HEAD's stands out.
pub open spec fn mark(item: Seq<char>) -> Seq<char> {
    if item == "HEAD"@ {
        " <span class=\"ref head\">"@ + html::escaped_text(item) + "</span>"@
    } else {
        " <span class=\"ref\">"@ + html::escaped_text(item) + "</span>"@
    }
}

/// True when a text is another with white space around it.
pub open spec fn around(s: Seq<char>, core: Seq<char>) -> bool {
    &&& core.len() > 0 ==> !texts::blank(core[0]) && !texts::blank(core.last())
    &&& exists|a: Seq<char>, b: Seq<char>|
        texts::all_blank(a) && texts::all_blank(b) && s == #[trigger] (a + core + b)
}

proof fn lemma_around(s: Seq<char>, core: Seq<char>)
    requires
        around(s, core),
    ensures
        text::trim(s, Class::Space) == core,
{
    let (a, b) = choose|a: Seq<char>, b: Seq<char>|
        texts::all_blank(a) && texts::all_blank(b) && s == #[trigger] (a + core + b);
    texts::law_blanks_around_are_taken_off(a, core, b);
}

proof fn lemma_mark(item: Seq<char>)
    ensures
        rows::ref_mark(item) == mark(item),
{
    reveal_strlit(" ");
    reveal_strlit("<span class=\"");
    reveal_strlit("ref head");
    reveal_strlit("ref");
    reveal_strlit("\">");
    reveal_strlit(" <span class=\"ref head\">");
    reveal_strlit(" <span class=\"ref\">");
    assert(" <span class=\"ref head\">"@ =~= " "@ + "<span class=\""@ + "ref head"@ + "\">"@);
    assert(" <span class=\"ref\">"@ =~= " "@ + "<span class=\""@ + "ref"@ + "\">"@);
}

proof fn lemma_marks(items: Seq<Seq<char>>, cores: Seq<Seq<char>>)
    requires
        items.len() == cores.len(),
        forall|i: int| 0 <= i < items.len() ==> around(#[trigger] items[i], cores[i]),
    ensures
        rows::ref_marks(items) == concat(
            cores.filter(|c: Seq<char>| c.len() > 0).map_values(|c: Seq<char>| mark(c)),
        ),
    decreases items.len(),
{
    reveal(Seq::filter);
    let some = cores.filter(|c: Seq<char>| c.len() > 0);
    let made = some.map_values(|c: Seq<char>| mark(c));
    if items.len() > 0 {
        let rest = items.drop_last();
        let fewer = cores.drop_last();
        assert forall|i: int| 0 <= i < rest.len() implies around(#[trigger] rest[i], fewer[i]) by {
            assert(rest[i] == items[i]);
        }
        lemma_marks(rest, fewer);
        let n = items.len() - 1;
        let core = cores[n];
        assert(around(items[n], core));
        lemma_around(items[n], core);
        lemma_mark(core);
        let less = fewer.filter(|c: Seq<char>| c.len() > 0);
        if core.len() > 0 {
            assert(some == less.push(core));
            assert(made.drop_last() =~= less.map_values(|c: Seq<char>| mark(c)));
            assert(made.last() == mark(core));
        } else {
            assert(some == less);
        }
    } else {
        assert(made =~= Seq::empty());
    }
}

/// Every ref of a list with commas between them is marked, without the white space
/// around it, in their order.
pub proof fn law_refs_are_marked(items: Seq<Seq<char>>, cores: Seq<Seq<char>>)
    requires
        items.len() > 0,
        items.len() == cores.len(),
        forall|i: int| 0 <= i < items.len() ==> around(#[trigger] items[i], cores[i]),
        forall|i: int| 0 <= i < items.len() ==> !(#[trigger] items[i]).contains(','),
    ensures
        rows::ref_marks(text::split(text::join(items, seq![',']), ',')) == concat(
            cores.filter(|c: Seq<char>| c.len() > 0).map_values(|c: Seq<char>| mark(c)),
        ),
{
    lists::law_join_then_split(items, ',');
    lemma_marks(items, cores);
}

// ---------------------------------------------------------------------------
// Pages

/// What a table shows of the lines that a command printed.
pub open spec fn table_text(
    table: Table,
    name: Seq<char>,
    list: Seq<Seq<Seq<char>>>,
) -> Seq<char> {
    concat(
        list.filter(|c: Seq<Seq<char>>| c.len() == columns_of(table)).map_values(
            |c: Seq<Seq<char>>| table_line(table, name, c),
        ),
    )
}

/// True when a command printed those lines of columns.
pub open spec fn printed(table: Table, output: Seq<char>, list: Seq<Seq<Seq<char>>>) -> bool {
    &&& forall|i: int| 0 <= i < list.len() ==> tellable(#[trigger] list[i], columns_of(table))
    &&& text::lines(output) == list.map_values(|c: Seq<Seq<char>>| text::join(c, seq!['\t']))
}

/// The log shows the lines that the command printed.
pub proof fn law_log_shows_output(name: Seq<char>, output: Seq<char>, list: Seq<Seq<Seq<char>>>)
    requires
        printed(Table::Log, output, list),
    ensures
        shows(
            shown::log_page(name, output),
            "200 OK"@,
            name + " log"@,
            parts::nav_text(name, "log"@)
                + "<h1>log</h1><table><tr><th>Commit</th><th>Date</th><th>Author</th><th>Subject</th></tr>"@
                + table_text(Table::Log, name, list) + "</table>"@,
        ),
{
    law_table_shows_lines(Table::Log, name, list);
    pages::lemma_ok(
        name + " log"@,
        parts::nav_text(name, "log"@)
            + "<h1>log</h1><table><tr><th>Commit</th><th>Date</th><th>Author</th><th>Subject</th></tr>"@
            + table_text(Table::Log, name, list) + "</table>"@,
    );
}

/// A search shows the lines that the command printed.
pub proof fn law_search_shows_output(name: Seq<char>, output: Seq<char>, list: Seq<Seq<Seq<char>>>)
    requires
        printed(Table::Found, output, list),
    ensures
        shows(
            shown::search_page(name, output),
            "200 OK"@,
            name + " search"@,
            parts::nav_text(name, "search"@) + "<h1>search</h1>"@
                + "<table><tr><th>Age</th><th>Commit message</th><th>Author</th></tr>"@
                + table_text(Table::Found, name, list) + "</table>"@,
        ),
        shows(
            shown::ask_page(name),
            "200 OK"@,
            name + " search"@,
            parts::nav_text(name, "search"@) + "<h1>search</h1>"@
                + "<p class=\"muted\">Type a commit-message search above.</p>"@,
        ),
{
    law_table_shows_lines(Table::Found, name, list);
    pages::lemma_ok(
        name + " search"@,
        parts::nav_text(name, "search"@) + "<h1>search</h1>"@
            + "<table><tr><th>Age</th><th>Commit message</th><th>Author</th></tr>"@ + table_text(
            Table::Found,
            name,
            list,
        ) + "</table>"@,
    );
    pages::lemma_ok(
        name + " search"@,
        parts::nav_text(name, "search"@) + "<h1>search</h1>"@
            + "<p class=\"muted\">Type a commit-message search above.</p>"@,
    );
}

/// The summary shows the branches and the commits that the commands printed, a link
/// to the log, and the command that clones the repository.
pub proof fn law_summary_shows_output(
    name: Seq<char>,
    branches: Seq<char>,
    commits: Seq<char>,
    command: Seq<char>,
    first: Seq<Seq<Seq<char>>>,
    second: Seq<Seq<Seq<char>>>,
)
    requires
        printed(Table::Branches, branches, first),
        printed(Table::Recent, commits, second),
    ensures
        shown::summary_body(name, branches, commits, command) == parts::nav_text(name, "summary"@)
            + "<section class=\"summary-block\"><table><tr><th>Branch</th><th>Commit message</th><th>Author</th><th>Age</th></tr>"@
            + table_text(Table::Branches, name, first) + "</table></section>"@
            + "<section class=\"summary-block\"><table><tr><th>Age</th><th>Commit message</th><th>Author</th></tr>"@
            + table_text(Table::Recent, name, second) + "</table><p><a href=\""@
            + html::escaped_attr(address(name, "/log"@, Seq::empty()))
            + "\">[...]</a></p></section>"@
            + "<section class=\"summary-block\"><h2>Clone</h2><div class=\"clone-url\">"@
            + html::escaped_text(command) + "</div></section>"@,
{
    law_table_shows_lines(Table::Branches, name, first);
    law_table_shows_lines(Table::Recent, name, second);
    assert(address(name, "/log"@, Seq::empty()) =~= "/repo/"@ + html::path_encoded(name)
        + "/log"@);
}

/// A failed command gives a page nothing to show, or a notice.
pub proof fn law_failed_command_shows_nothing(
    output: Result<Seq<char>, Seq<char>>,
    notice: Seq<char>,
)
    ensures
        output matches Ok(s) ==> shown::or_nothing(output) == s && shown::or_notice(output, notice)
            == s && shown::either(output) == s,
        output matches Err(reason) ==> shown::or_nothing(output).len() == 0 && shown::or_notice(
            output,
            notice,
        ) == notice && shown::either(output) == reason,
{
}

/// The blob page shows the contents that the command printed, of the path that the
/// request asks for.
pub proof fn law_blob_shows_output(
    repo: RepoView,
    req: RequestView,
    names: Seq<Seq<char>>,
    output: Result<Seq<char>, Seq<char>>,
)
    requires
        admission::ordinary_rev(asked_rev(req)),
        names.len() > 0,
        forall|i: int| 0 <= i < names.len() ==> admission::ordinary_part(#[trigger] names[i]),
        asked_path(req) == text::join(names, "/"@),
        asked_path(req).len() > 0,
    ensures
        output matches Ok(contents) ==> shows(
            shown::blob_page(repo, req, output),
            "200 OK"@,
            asked_path(req),
            parts::nav_text(repo.name, "tree"@) + "<h1>"@ + html::escaped_text(asked_path(req))
                + "</h1><pre>"@ + html::escaped_text(contents) + "</pre>"@,
        ),
        output is Err ==> shows(
            shown::blob_page(repo, req, output),
            "404 Not Found"@,
            "not found"@,
            "<h1>blob not found</h1>"@,
        ),
{
    crate::laws::views::lemma_asked(req);
    admission::law_ordinary_revisions_are_accepted(asked_rev(req));
    admission::law_ordinary_paths_are_accepted(names);
    let path = asked_path(req);
    match output {
        Ok(contents) => {
            pages::lemma_ok(
                path,
                parts::nav_text(repo.name, "tree"@) + "<h1>"@ + html::escaped_text(path)
                    + "</h1><pre>"@ + html::escaped_text(contents) + "</pre>"@,
            );
        },
        Err(_) => pages::lemma_missing("not found"@, "<h1>blob not found</h1>"@),
    }
}

/// The commit page shows what the command printed of the commit that the request
/// asks for, and leads to its diff.
pub proof fn law_commit_shows_output(
    repo: RepoView,
    req: RequestView,
    output: Result<Seq<char>, Seq<char>>,
    printed: Seq<char>,
)
    requires
        admission::ordinary_rev(asked_id(req)),
        output == Ok::<Seq<char>, Seq<char>>(printed) || output is Err && printed
            == "commit not found"@,
    ensures
        shows(
            shown::commit_page(repo, req, output),
            "200 OK"@,
            "commit "@ + asked_id(req),
            parts::nav_text(repo.name, "log"@) + "<h1>commit "@ + html::escaped_text(asked_id(req))
                + "</h1><p><a href=\"/repo/"@ + html::escaped_attr(html::path_encoded(repo.name))
                + "/diff?id="@ + html::escaped_attr(html::query_encoded(asked_id(req)))
                + "\">diff only</a></p><pre>"@ + html::escaped_text(printed) + "</pre>"@,
        ),
{
    crate::laws::views::lemma_asked(req);
    let id = asked_id(req);
    admission::law_ordinary_revisions_are_accepted(id);
    pages::lemma_ok(
        "commit "@ + id,
        parts::nav_text(repo.name, "log"@) + "<h1>commit "@ + html::escaped_text(id)
            + "</h1><p><a href=\"/repo/"@ + html::escaped_attr(html::path_encoded(repo.name))
            + "/diff?id="@ + html::escaped_attr(html::query_encoded(id))
            + "\">diff only</a></p><pre>"@ + html::escaped_text(printed) + "</pre>"@,
    );
}

/// The diff page shows what the command printed of the commit that the request asks
/// for.
pub proof fn law_diff_shows_output(
    repo: RepoView,
    req: RequestView,
    output: Result<Seq<char>, Seq<char>>,
    printed: Seq<char>,
)
    requires
        admission::ordinary_rev(asked_id(req)),
        output == Ok::<Seq<char>, Seq<char>>(printed) || output is Err && printed
            == "diff not found"@,
    ensures
        shows(
            shown::diff_page(repo, req, output),
            "200 OK"@,
            "diff "@ + asked_id(req),
            parts::nav_text(repo.name, "log"@) + "<h1>diff "@ + html::escaped_text(asked_id(req))
                + "</h1><pre>"@ + html::escaped_text(printed) + "</pre>"@,
        ),
{
    crate::laws::views::lemma_asked(req);
    let id = asked_id(req);
    admission::law_ordinary_revisions_are_accepted(id);
    pages::lemma_ok(
        "diff "@ + id,
        parts::nav_text(repo.name, "log"@) + "<h1>diff "@ + html::escaped_text(id) + "</h1><pre>"@
            + html::escaped_text(printed) + "</pre>"@,
    );
}

/// A revision that is not ordinary is refused by every page that takes one.
pub proof fn law_odd_revision_is_refused(
    repo: RepoView,
    req: RequestView,
    listed: Seq<char>,
    output: Result<Seq<char>, Seq<char>>,
)
    ensures
        !admission::ordinary_rev(asked_rev(req)) ==> {
            &&& shows(
                shown::tree_page(repo, req, listed),
                "400 Bad Request"@,
                "bad path"@,
                "<h1>bad path</h1>"@,
            )
            &&& shows(
                shown::blob_page(repo, req, output),
                "400 Bad Request"@,
                "bad path"@,
                "<h1>bad path</h1>"@,
            )
        },
        !admission::ordinary_rev(asked_id(req)) ==> {
            &&& shows(
                shown::commit_page(repo, req, output),
                "400 Bad Request"@,
                "bad revision"@,
                "<h1>bad revision</h1>"@,
            )
            &&& shows(
                shown::diff_page(repo, req, output),
                "400 Bad Request"@,
                "bad revision"@,
                "<h1>bad revision</h1>"@,
            )
        },
{
    crate::laws::views::lemma_asked(req);
    admission::law_ordinary_revisions_are_accepted(asked_rev(req));
    admission::law_ordinary_revisions_are_accepted(asked_id(req));
    pages::lemma_bad("bad path"@, "<h1>bad path</h1>"@);
    pages::lemma_bad("bad revision"@, "<h1>bad revision</h1>"@);
}

/// A path with a name that is not ordinary is refused, and so is a blob page
/// without a path.
pub proof fn law_odd_path_is_refused(
    repo: RepoView,
    req: RequestView,
    names: Seq<Seq<char>>,
    k: int,
    listed: Seq<char>,
    output: Result<Seq<char>, Seq<char>>,
)
    requires
        asked_path(req) == text::join(names, "/"@),
        forall|i: int| 0 <= i < names.len() ==> !(#[trigger] names[i]).contains('/'),
        asked_path(req).len() > 0 ==> 0 <= k < names.len() && !admission::ordinary_part(names[k]),
    ensures
        asked_path(req).len() > 0 ==> shows(
            shown::tree_page(repo, req, listed),
            "400 Bad Request"@,
            "bad path"@,
            "<h1>bad path</h1>"@,
        ),
        shows(
            shown::blob_page(repo, req, output),
            "400 Bad Request"@,
            "bad path"@,
            "<h1>bad path</h1>"@,
        ),
{
    crate::laws::views::lemma_asked(req);
    if asked_path(req).len() > 0 {
        admission::law_other_paths_are_refused(names, k);
    }
    pages::lemma_bad("bad path"@, "<h1>bad path</h1>"@);
}

// ---------------------------------------------------------------------------
// Trees

/// An entry of a tree, as a command prints it.
pub struct Printed {
    /// Its mode.
    pub mode: Seq<char>,
    /// Its kind.
    pub kind: Seq<char>,
    /// Its object's id.
    pub id: Seq<char>,
    /// Its name.
    pub name: Seq<char>,
}

/// True when an entry can be told from its line.
pub open spec fn in_words(e: Printed) -> bool {
    is_word(e.mode) && is_word(e.kind) && is_word(e.id)
}

/// The line that a command prints for an entry.
pub open spec fn entry_line(e: Printed) -> Seq<char> {
    e.mode + seq![' '] + (e.kind + seq![' '] + e.id) + seq!['\t'] + e.name
}

/// The row of an entry: its mode, its kind, and its name, which leads to its page at
/// that revision.
pub open spec fn entry_row(
    name: Seq<char>,
    rev: Seq<char>,
    names: Seq<Seq<char>>,
    e: Printed,
) -> Seq<char> {
    let page = if e.kind == "tree"@ {
        "/tree?rev="@
    } else {
        "/blob?rev="@
    };
    row(
        seq![
            cell(html::escaped_text(e.mode)),
            cell(html::escaped_text(e.kind)),
            cell(
                anchor(
                    address(name, page, html::query_encoded(rev)) + "&path="@ + html::query_encoded(
                        browsing::file_path(names, e.name),
                    ),
                    e.name,
                ),
            ),
        ],
    )
}

proof fn lemma_printed_row(name: Seq<char>, rev: Seq<char>, names: Seq<Seq<char>>, e: Printed)
    requires
        in_words(e),
        forall|i: int| 0 <= i < names.len() ==> (#[trigger] names[i]).len() > 0,
    ensures
        shown::tree_line(name, rev, text::join(names, "/"@), entry_line(e)) == entry_row(
            name,
            rev,
            names,
            e,
        ),
{
    let start = e.mode + seq![' '] + (e.kind + seq![' '] + e.id);
    let line = entry_line(e);
    let n = start.len() as int;
    assert(text::is_space('\t'));
    assert forall|j: int| 0 <= j < n implies line[j] != '\t' by {
        let m = e.mode.len();
        let k = e.kind.len();
        if j < m {
            assert(line[j] == e.mode[j]);
        } else if m < j < m + 1 + k {
            assert(line[j] == e.kind[j - m - 1]);
        } else if j > m + 1 + k {
            assert(line[j] == e.id[j - m - k - 2]);
        }
    }
    assert(line[n] == '\t');
    text::lemma_until_is(line, '\t', n);
    assert(line.take(n) =~= start);
    assert(line.skip(n + 1) =~= e.name);
    requests::lemma_words_cons(e.mode, e.kind + seq![' '] + e.id);
    requests::lemma_words_cons(e.kind, e.id);
    requests::lemma_words_one(e.id);
    let words = text::words(start);
    assert(words =~= seq![e.mode, e.kind, e.id]);
    crate::laws::views::lemma_child(names, e.name);
    let page = if e.kind == "tree"@ {
        "/tree?rev="@
    } else {
        "/blob?rev="@
    };
    let target = address(name, page, html::query_encoded(rev)) + "&path="@ + html::query_encoded(
        browsing::file_path(names, e.name),
    );
    pages::lemma_three_cells(
        html::escaped_text(e.mode),
        html::escaped_text(e.kind),
        anchor(target, e.name),
    );
    reveal_strlit("</td><td><a href=\"");
    reveal_strlit("</td><td>");
    reveal_strlit("<a href=\"");
    reveal_strlit("</a></td></tr>");
    reveal_strlit("</a>");
    reveal_strlit("</td></tr>");
    assert("</td><td><a href=\""@ =~= "</td><td>"@ + "<a href=\""@);
    assert("</a></td></tr>"@ =~= "</a>"@ + "</td></tr>"@);
    lemma_last_cell(
        "<tr><td>"@ + html::escaped_text(e.mode) + "</td><td>"@ + html::escaped_text(e.kind),
        html::escaped_attr(target),
        html::escaped_text(e.name),
    );
}

proof fn lemma_last_cell(start: Seq<char>, target: Seq<char>, label: Seq<char>)
    ensures
        start + ("</td><td>"@ + "<a href=\""@) + target + "\">"@ + label + ("</a>"@ + "</td></tr>"@)
            == start + "</td><td>"@ + ("<a href=\""@ + target + "\">"@ + label + "</a>"@)
            + "</td></tr>"@,
{
    let u = start + "</td><td>"@;
    let a = "<a href=\""@;
    assert(start + ("</td><td>"@ + a) =~= u + a);
    assert(u + a + target =~= u + (a + target));
    assert(u + (a + target) + "\">"@ =~= u + (a + target + "\">"@));
    assert(u + (a + target + "\">"@) + label =~= u + (a + target + "\">"@ + label));
    assert(u + (a + target + "\">"@ + label) + ("</a>"@ + "</td></tr>"@) =~= u + (a + target
        + "\">"@ + label + "</a>"@) + "</td></tr>"@);
}

proof fn lemma_printed_rows(
    name: Seq<char>,
    rev: Seq<char>,
    names: Seq<Seq<char>>,
    list: Seq<Printed>,
)
    requires
        forall|i: int| 0 <= i < list.len() ==> in_words(#[trigger] list[i]),
        forall|i: int| 0 <= i < names.len() ==> (#[trigger] names[i]).len() > 0,
    ensures
        shown::tree_rows(
            name,
            rev,
            text::join(names, "/"@),
            list.map_values(|e: Printed| entry_line(e)),
        ) == concat(list.map_values(|e: Printed| entry_row(name, rev, names, e))),
    decreases list.len(),
{
    let lines = list.map_values(|e: Printed| entry_line(e));
    let made = list.map_values(|e: Printed| entry_row(name, rev, names, e));
    if list.len() > 0 {
        let rest = list.drop_last();
        let e = list[list.len() - 1];
        assert forall|i: int| 0 <= i < rest.len() implies in_words(#[trigger] rest[i]) by {
            assert(rest[i] == list[i]);
        }
        lemma_printed_rows(name, rev, names, rest);
        assert(lines.drop_last() =~= rest.map_values(|e: Printed| entry_line(e)));
        assert(made.drop_last() =~= rest.map_values(
            |e: Printed| entry_row(name, rev, names, e),
        ));
        assert(in_words(e));
        lemma_printed_row(name, rev, names, e);
    } else {
        assert(lines =~= Seq::empty());
        assert(made =~= Seq::empty());
    }
}

/// The tree page has a row for every entry that the command printed, in their
/// order, each with a link to its page at the revision and path that the request
/// asks for.
pub proof fn law_tree_shows_output(
    repo: RepoView,
    req: RequestView,
    names: Seq<Seq<char>>,
    output: Seq<char>,
    list: Seq<Printed>,
)
    requires
        admission::ordinary_rev(asked_rev(req)),
        forall|i: int| 0 <= i < names.len() ==> admission::ordinary_part(#[trigger] names[i]),
        asked_path(req) == text::join(names, "/"@),
        forall|i: int| 0 <= i < list.len() ==> in_words(#[trigger] list[i]),
        text::lines(output) == list.map_values(|e: Printed| entry_line(e)),
    ensures
        shows(
            shown::tree_page(repo, req, output),
            "200 OK"@,
            repo.name + " tree"@,
            parts::nav_text(repo.name, "tree"@)
                + "<h1>tree</h1><table><tr><th>Mode</th><th>Type</th><th>Name</th></tr>"@ + concat(
                list.map_values(|e: Printed| entry_row(repo.name, asked_rev(req), names, e)),
            ) + "</table>"@,
        ),
{
    crate::laws::views::lemma_asked(req);
    let rev = asked_rev(req);
    admission::law_ordinary_revisions_are_accepted(rev);
    admission::law_ordinary_paths_are_accepted(names);
    assert forall|i: int| 0 <= i < names.len() implies (#[trigger] names[i]).len() > 0 by {
        assert(admission::ordinary_part(names[i]));
    }
    lemma_printed_rows(repo.name, rev, names, list);
    pages::lemma_ok(
        repo.name + " tree"@,
        parts::nav_text(repo.name, "tree"@)
            + "<h1>tree</h1><table><tr><th>Mode</th><th>Type</th><th>Name</th></tr>"@ + concat(
            list.map_values(|e: Printed| entry_row(repo.name, rev, names, e)),
        ) + "</table>"@,
    );
}

/// A line without a tab, or with fewer than three words before it, makes no row.
pub proof fn law_odd_tree_line_makes_no_row(
    name: Seq<char>,
    rev: Seq<char>,
    path: Seq<char>,
    start: Seq<char>,
    entry: Seq<char>,
)
    requires
        !start.contains('\t'),
    ensures
        shown::tree_line(name, rev, path, start).len() == 0,
        text::words(start).len() < 3 ==> shown::tree_line(
            name,
            rev,
            path,
            start + seq!['\t'] + entry,
        ).len() == 0,
{
    let n = start.len() as int;
    assert forall|j: int| 0 <= j < n implies start[j] != '\t' by {
        assert(start.contains(start[j]));
    }
    text::lemma_until_is(start, '\t', n);
    let line = start + seq!['\t'] + entry;
    assert forall|j: int| 0 <= j < n implies line[j] != '\t' by {
        assert(line[j] == start[j]);
    }
    assert(line[n] == '\t');
    text::lemma_until_is(line, '\t', n);
    assert(line.take(n) =~= start);
}

// ---------------------------------------------------------------------------
// The list of repositories

/// The first line of a text.
pub proof fn law_first_line_is_taken(line: Seq<char>, rest: Seq<char>)
    requires
        !line.contains('\n'),
        line.len() > 0 ==> line.last() != '\r',
    ensures
        shown::first_of(line + seq!['\n'] + rest) == line,
        shown::first_of(line) == line,
{
    texts::law_line_ends(line, rest);
    assert(text::lines(line + seq!['\n'] + rest)[0] == line);
    if line.len() > 0 {
        assert(text::lines(line)[0] == line);
    } else {
        assert(line =~= Seq::empty());
    }
}

/// True when a repository is asked for by its name or its description.
pub open spec fn asked_for(q: Seq<char>, e: EntryView) -> bool {
    holds(e.name, q) || holds(e.description, q)
}

/// The row of a repository in the list: its name, which leads to its summary, and
/// its description.
pub open spec fn index_line(e: EntryView) -> Seq<char> {
    row(
        seq![
            cell(anchor(address(e.name, "/summary"@, Seq::empty()), e.name)),
            cell(html::escaped_text(e.description)),
        ],
    )
}

proof fn lemma_index_line(e: EntryView)
    ensures
        entries::index_row(e) == index_line(e),
{
    reveal_strlit("<tr><td><a href=\"");
    reveal_strlit("<tr><td>");
    reveal_strlit("<a href=\"");
    reveal_strlit("</a></td><td>");
    reveal_strlit("</a>");
    reveal_strlit("</td><td>");
    assert("<tr><td><a href=\""@ =~= "<tr><td>"@ + "<a href=\""@);
    assert("</a></td><td>"@ =~= "</a>"@ + "</td><td>"@);
    assert(address(e.name, "/summary"@, Seq::empty()) =~= "/repo/"@ + html::path_encoded(e.name)
        + "/summary"@);
    pages::lemma_two_cells(
        anchor(address(e.name, "/summary"@, Seq::empty()), e.name),
        html::escaped_text(e.description),
    );
    assert(entries::index_row(e) =~= index_line(e));
}

proof fn lemma_index_lines(q: Seq<char>, list: Seq<EntryView>)
    ensures
        entries::index_rows(q, list) == concat(
            list.filter(|e: EntryView| asked_for(q, e)).map_values(|e: EntryView| index_line(e)),
        ),
    decreases list.len(),
{
    reveal(Seq::filter);
    let some = list.filter(|e: EntryView| asked_for(q, e));
    let made = some.map_values(|e: EntryView| index_line(e));
    if list.len() > 0 {
        let rest = list.drop_last();
        let e = list.last();
        let fewer = rest.filter(|e: EntryView| asked_for(q, e));
        lemma_index_lines(q, rest);
        lemma_holds(e.name, q);
        lemma_holds(e.description, q);
        lemma_index_line(e);
        if asked_for(q, e) {
            assert(some == fewer.push(e));
            assert(made.drop_last() =~= fewer.map_values(|e: EntryView| index_line(e)));
            assert(made.last() == index_line(e));
        } else {
            assert(some == fewer);
        }
    } else {
        assert(made =~= Seq::empty());
    }
}

/// The list shows the repositories whose names or descriptions hold the query, in
/// the order of their names; all of them where nothing is asked for.
pub proof fn law_list_shows_entries(list: Seq<EntryView>, req: RequestView, q: Seq<char>)
    requires
        asks(req, q) || q.len() == 0 && !req.query.contains_key("q"@),
    ensures
        shows(
            entries::index_page(list, req),
            "200 OK"@,
            "rsgit"@,
            index_head(q) + concat(
                sorted::by_name::<Entry>(list).filter(
                    |e: EntryView| asked_for(q, e),
                ).map_values(|e: EntryView| index_line(e)),
            ) + "</table>"@,
        ),
        lists::in_order::<Entry>(sorted::by_name::<Entry>(list)),
        sorted::by_name::<Entry>(list).to_multiset() == list.to_multiset(),
{
    let ordered = sorted::by_name::<Entry>(list);
    if asks(req, q) {
        pages::lemma_asks(req, q);
    } else {
        reveal_strlit("");
        assert(""@ =~= Seq::empty());
        assert(q =~= Seq::empty());
        assert(text::trim(q, Class::Space) =~= q);
    }
    lemma_index_lines(q, ordered);
    lists::law_sorted_list_is_in_order::<Entry>(list);
    pages::lemma_ok(
        "rsgit"@,
        index_head(q) + concat(
            ordered.filter(|e: EntryView| asked_for(q, e)).map_values(
                |e: EntryView| index_line(e),
            ),
        ) + "</table>"@,
    );
}

}
