//! Overviews: the list of repositories, and the summary of one.

use vstd::prelude::*;
use crate::app::{index, parts, summary};
use crate::git::commit::CommitView;
use crate::git::reader;
use crate::git::refs::{self, RefView};
use crate::html;
use crate::http::RequestView;
use crate::laws::pages::{
    self, asks, cell, concat, faint, first_of_chain, goes_far, is_chain, link, row, shows,
};
use crate::laws::{links, lists, texts, urls};
use crate::repo::{FilesView, Repo, RepoView};
use crate::sorted;
use crate::text::{self, Class};

verus! {

// ---------------------------------------------------------------------------
// Navigation

/// A page's place in the navigation bar: a link to it, which stands out on the
/// page itself.
pub open spec fn place(name: Seq<char>, label: Seq<char>, active: Seq<char>) -> Seq<char> {
    let shown = "<a href=\""@ + "/repo/"@ + html::path_encoded(name) + "/"@ + label + "\">"@ + label
        + "</a>"@;
    if label == active {
        " | <strong>"@ + shown + "</strong>"@
    } else {
        " | "@ + shown
    }
}

proof fn lemma_place(name: Seq<char>, label: Seq<char>, active: Seq<char>)
    requires
        forall|i: int| 0 <= i < label.len() ==> urls::url_char(#[trigger] label[i]),
    ensures
        parts::nav_item(parts::base_path(name), label, active) == place(name, label, active),
{
    reveal_strlit(" | ");
    reveal_strlit("<strong>");
    reveal_strlit(" | <strong>");
    assert(" | <strong>"@ =~= " | "@ + "<strong>"@);
    let target = parts::base_path(name) + "/"@ + label;
    lemma_target_kept(name, label);
    let shown = "<a href=\""@ + target + "\">"@ + label + "</a>"@;
    assert(shown =~= "<a href=\""@ + "/repo/"@ + html::path_encoded(name) + "/"@ + label + "\">"@
        + label + "</a>"@);
    if label == active {
        assert(" | "@ + "<strong>"@ + shown + "</strong>"@ =~= " | <strong>"@ + shown
            + "</strong>"@);
    }
}

/// The place of a page needs no escapes.
proof fn lemma_target_kept(name: Seq<char>, label: Seq<char>)
    requires
        forall|i: int| 0 <= i < label.len() ==> urls::url_char(#[trigger] label[i]),
    ensures
        html::escaped_attr(parts::base_path(name) + "/"@ + label) == parts::base_path(name) + "/"@
            + label,
{
    reveal_strlit("/repo/");
    reveal_strlit("/");
    let encoded = html::path_encoded(name);
    let target = parts::base_path(name) + "/"@ + label;
    assert forall|i: int| 0 <= i < target.len() implies urls::url_char(#[trigger] target[i]) by {
        let start = "/repo/"@;
        assert(start[0] == '/' && start[1] == 'r' && start[2] == 'e' && start[3] == 'p' && start[4]
            == 'o' && start[5] == '/');
        if i < 6 {
            assert(target[i] == start[i]);
        } else if i < 6 + encoded.len() {
            assert(target[i] == encoded[i - 6]);
            urls::law_encoded_is_plain(name, i - 6);
        } else if i == 6 + encoded.len() {
            assert(target[i] == '/');
        } else {
            assert(target[i] == label[i - 7 - encoded.len()]);
        }
    }
    links::lemma_attr_kept(target);
}

/// Every page of a repository leads to the list of repositories, to the
/// repository's summary, log and tree, and to its search.
pub proof fn law_navigation_leads_to_pages(name: Seq<char>, active: Seq<char>)
    ensures
        parts::nav_text(name, active) == "<nav class=\"topbar\"><div><a href=\"/\">index</a>"@
            + place(name, "summary"@, active) + place(name, "log"@, active) + place(
            name,
            "tree"@,
            active,
        ) + "</div><form class=\"search\" method=\"get\" action=\""@ + ("/repo/"@
            + html::path_encoded(name) + "/search"@)
            + "\"><input name=\"q\" type=\"search\" placeholder=\"search commits\"><button>Search</button></form></nav>"@,
{
    reveal_strlit("summary");
    reveal_strlit("log");
    reveal_strlit("tree");
    reveal_strlit("search");
    reveal_strlit("/search");
    reveal_strlit("/");
    lemma_place(name, "summary"@, active);
    lemma_place(name, "log"@, active);
    lemma_place(name, "tree"@, active);
    lemma_target_kept(name, "search"@);
    assert("/search"@ =~= "/"@ + "search"@);
    assert(parts::base_path(name) + "/search"@ =~= parts::base_path(name) + "/"@ + "search"@);
}

// ---------------------------------------------------------------------------
// Descriptions

/// The description of a repository is the first line of its file.
pub proof fn law_description_is_the_first_line(files: FilesView, line: Seq<char>, rest: Seq<char>)
    requires
        files.description == Some(line + seq!['\n'] + rest) || files.description == Some(line),
        !line.contains('\n'),
        line.len() > 0 ==> line.last() != '\r',
    ensures
        !text::has_prefix(line, "Unnamed repository"@) ==> reader::description_of(files) == line,
        text::has_prefix(line, "Unnamed repository"@) ==> reader::description_of(files).len() == 0,
{
    texts::law_line_ends(line, rest);
    let all = text::lines(files.description->0);
    if files.description == Some(line + seq!['\n'] + rest) {
        assert(all[0] == line);
    } else if line.len() > 0 {
        assert(all[0] == line);
    } else {
        assert(line =~= Seq::empty());
    }
}

/// A repository without the file has no description.
pub proof fn law_no_description_without_file(files: FilesView)
    requires
        files.description is None,
    ensures
        reader::description_of(files).len() == 0,
{
}

// ---------------------------------------------------------------------------
// The list of repositories

/// True when a text holds another, whatever the case of letters.
pub open spec fn holds(s: Seq<char>, q: Seq<char>) -> bool {
    exists|a: Seq<char>, b: Seq<char>| text::lower(s) == #[trigger] (a + text::lower(q) + b)
}

pub proof fn lemma_holds(s: Seq<char>, q: Seq<char>)
    ensures
        holds(s, q) <==> text::occurs(text::lower(s), text::lower(q)),
        q.len() == 0 ==> holds(s, q),
{
    texts::law_found_part_is_there(text::lower(s), text::lower(q));
    if holds(s, q) {
        let (a, b) = choose|a: Seq<char>, b: Seq<char>|
            text::lower(s) == #[trigger] (a + text::lower(q) + b);
        texts::law_part_is_found(a, text::lower(q), b);
    }
    if q.len() == 0 {
        let none: Seq<char> = Seq::empty();
        assert(text::lower(s) =~= none + text::lower(q) + text::lower(s));
    }
}

/// True when a repository is asked for by its name or its description.
pub open spec fn asked_for(q: Seq<char>, r: RepoView) -> bool {
    holds(r.name, q) || holds(reader::description_of(r.files), q)
}

/// The row of a repository in the list: its name, which leads to its summary, and
/// its description.
pub open spec fn index_line(r: RepoView) -> Seq<char> {
    row(
        seq![
            cell(link("/repo/"@ + html::path_encoded(r.name) + "/summary"@, r.name)),
            cell(html::escaped_text(reader::description_of(r.files))),
        ],
    )
}

proof fn lemma_index_row(r: RepoView)
    ensures
        index::index_row(r) == index_line(r),
{
    reveal_strlit("<tr><td><a href=\"/repo/");
    reveal_strlit("<tr><td>");
    reveal_strlit("<a href=\"");
    reveal_strlit("/repo/");
    reveal_strlit("/summary\">");
    reveal_strlit("/summary");
    reveal_strlit("\">");
    reveal_strlit("</a></td><td>");
    reveal_strlit("</a>");
    reveal_strlit("</td><td>");
    assert("<tr><td><a href=\"/repo/"@ =~= "<tr><td>"@ + "<a href=\""@ + "/repo/"@);
    assert("/summary\">"@ =~= "/summary"@ + "\">"@);
    assert("</a></td><td>"@ =~= "</a>"@ + "</td><td>"@);
    links::law_encoded_needs_no_escape(r.name);
    let shown = html::escaped_text(reader::description_of(r.files));
    pages::lemma_two_cells(
        link("/repo/"@ + html::path_encoded(r.name) + "/summary"@, r.name),
        shown,
    );
    assert(index::index_row(r) =~= index_line(r));
}

proof fn lemma_index_rows(q: Seq<char>, list: Seq<RepoView>)
    ensures
        index::index_rows(q, list) == concat(
            list.filter(|r: RepoView| asked_for(q, r)).map_values(|r: RepoView| index_line(r)),
        ),
    decreases list.len(),
{
    reveal(Seq::filter);
    let some = list.filter(|r: RepoView| asked_for(q, r));
    let lines = some.map_values(|r: RepoView| index_line(r));
    if list.len() > 0 {
        let rest = list.drop_last();
        let r = list.last();
        let fewer = rest.filter(|r: RepoView| asked_for(q, r));
        lemma_index_rows(q, rest);
        lemma_holds(r.name, q);
        lemma_holds(reader::description_of(r.files), q);
        lemma_index_row(r);
        if asked_for(q, r) {
            assert(some == fewer.push(r));
            assert(lines.drop_last() =~= fewer.map_values(|r: RepoView| index_line(r)));
            assert(lines.last() == index_line(r));
        } else {
            assert(some == fewer);
        }
    } else {
        assert(lines =~= Seq::empty());
    }
}

/// What stands before the rows of the list, with the query in its place.
pub open spec fn index_head(q: Seq<char>) -> Seq<char> {
    "<h1>rsgit</h1><p>A tiny Git browser.</p><form class=\"index-search\" method=\"get\" action=\"/\"><input name=\"q\" type=\"search\" placeholder=\"search repositories\" value=\""@
        + html::escaped_attr(q)
        + "\"><button>Search</button></form><table><tr><th>Repository</th><th>Description</th></tr>"@
}

/// The list shows the repositories whose names or descriptions hold the query, in
/// the order of their names; all of them where nothing is asked for.
pub proof fn law_list_shows_repositories(repos: Seq<RepoView>, req: RequestView, q: Seq<char>)
    requires
        asks(req, q) || q.len() == 0 && !req.query.contains_key("q"@),
    ensures
        shows(
            index::index_page(repos, req),
            "200 OK"@,
            "rsgit"@,
            index_head(q) + concat(
                sorted::by_name::<Repo>(repos).filter(
                    |r: RepoView| asked_for(q, r),
                ).map_values(|r: RepoView| index_line(r)),
            ) + "</table>"@,
        ),
        lists::in_order::<Repo>(sorted::by_name::<Repo>(repos)),
        sorted::by_name::<Repo>(repos).to_multiset() == repos.to_multiset(),
{
    let list = sorted::by_name::<Repo>(repos);
    if asks(req, q) {
        pages::lemma_asks(req, q);
    } else {
        reveal_strlit("");
        assert(""@ =~= Seq::empty());
        assert(q =~= Seq::empty());
        assert(text::trim(q, Class::Space) =~= q);
    }
    lemma_index_rows(q, list);
    lists::law_sorted_list_is_in_order::<Repo>(repos);
    pages::lemma_ok(
        "rsgit"@,
        index_head(q) + concat(
            list.filter(|r: RepoView| asked_for(q, r)).map_values(|r: RepoView| index_line(r)),
        ) + "</table>"@,
    );
}

// ---------------------------------------------------------------------------
// The summary

/// Copies of `refs/heads/`.
pub open spec fn heads(n: nat) -> Seq<char>
    decreases n,
{
    if n == 0 {
        Seq::empty()
    } else {
        "refs/heads/"@ + heads((n - 1) as nat)
    }
}

/// A branch is shown by its name without what stands before it.
pub proof fn law_branch_is_shown_by_short_name(n: nat, short: Seq<char>)
    requires
        !text::has_prefix(short, "refs/heads/"@),
    ensures
        text::strip_all(heads(n) + short, "refs/heads/"@) == short,
    decreases n,
{
    reveal_strlit("refs/heads/");
    let p = "refs/heads/"@;
    if n == 0 {
        assert(heads(n) + short =~= short);
    } else {
        let rest = heads((n - 1) as nat) + short;
        let whole = heads(n) + short;
        law_branch_is_shown_by_short_name((n - 1) as nat, short);
        assert(whole =~= p + rest);
        assert(whole.take(p.len() as int) =~= p);
        assert(whole.skip(p.len() as int) =~= rest);
    }
}

/// True when a branch is shown by that name.
pub open spec fn goes_by(branch: RefView, short: Seq<char>) -> bool {
    !text::has_prefix(short, "refs/heads/"@) && exists|n: nat|
        branch.name == #[trigger] heads(n) + short
}

/// The row of a branch in the summary: its name, and the subject, author and time
/// of its commit if that is among the recent ones, else the commit's id.
pub open spec fn branch_line(
    short: Seq<char>,
    oid: Seq<char>,
    recent: Seq<CommitView>,
) -> Seq<char> {
    let known = recent.filter(|c: CommitView| c.id == oid);
    if known.len() > 0 {
        row(
            seq![
                cell(html::escaped_text(short)),
                cell(html::escaped_text(known[0].subject)),
                cell(html::escaped_text(known[0].author)),
                faint(pages::shown_time(known[0].time)),
            ],
        )
    } else {
        row(
            seq![
                cell(html::escaped_text(short)),
                cell(html::escaped_text(oid)),
                cell(Seq::empty()),
                faint(Seq::empty()),
            ],
        )
    }
}

pub proof fn lemma_faint_row(a: Seq<char>, b: Seq<char>, c: Seq<char>, d: Seq<char>)
    ensures
        row(seq![cell(a), cell(b), cell(c), faint(d)]) == "<tr><td>"@ + a + "</td><td>"@ + b
            + "</td><td>"@ + c + "</td><td class=\"muted\">"@ + d + "</td></tr>"@,
{
    pages::lemma_cell_ends();
    reveal_strlit("</td>");
    reveal_strlit("<td class=\"muted\">");
    reveal_strlit("</td><td class=\"muted\">");
    assert("</td><td class=\"muted\">"@ =~= "</td>"@ + "<td class=\"muted\">"@);
    let cells = seq![cell(a), cell(b), cell(c), faint(d)];
    assert(cells.drop_last() =~= seq![cell(a), cell(b), cell(c)]);
    assert(seq![cell(a), cell(b), cell(c)].drop_last() =~= seq![cell(a), cell(b)]);
    assert(seq![cell(a), cell(b)].drop_last() =~= seq![cell(a)]);
    assert(seq![cell(a)].drop_last() =~= Seq::empty());
    reveal_with_fuel(concat, 5);
    assert(concat(cells) =~= cell(a) + cell(b) + cell(c) + faint(d));
    assert(row(cells) =~= "<tr><td>"@ + a + "</td><td>"@ + b + "</td><td>"@ + c
        + "</td><td class=\"muted\">"@ + d + "</td></tr>"@);
}

proof fn lemma_known(list: Seq<CommitView>, id: Seq<char>)
    ensures
        ({
            let known = list.filter(|c: CommitView| c.id == id);
            summary::commit_with(list, id) == (if known.len() > 0 {
                Some(known[0])
            } else {
                None
            })
        }),
    decreases list.len(),
{
    let same = |c: CommitView| c.id == id;
    if list.len() == 0 {
        reveal(Seq::filter);
        assert(list.filter(same).len() == 0);
    } else {
        let first = seq![list[0]];
        let rest = list.drop_first();
        lemma_known(rest, id);
        assert(list =~= first + rest);
        Seq::filter_distributes_over_add(first, rest, same);
        assert(first.filter(same) == if same(list[0]) {
            first
        } else {
            Seq::empty()
        }) by {
            reveal(Seq::filter);
            assert(first.drop_last() =~= Seq::empty());
            assert(first.drop_last().filter(same) =~= Seq::empty());
        }
        let known = list.filter(same);
        if same(list[0]) {
            assert(known[0] == list[0]);
        } else {
            assert(known =~= rest.filter(same));
        }
    }
}

proof fn lemma_branch_row(branch: RefView, short: Seq<char>, recent: Seq<CommitView>)
    requires
        goes_by(branch, short),
    ensures
        summary::branch_row(branch, recent) == branch_line(short, branch.oid, recent),
{
    let n = choose|n: nat| branch.name == #[trigger] heads(n) + short;
    law_branch_is_shown_by_short_name(n, short);
    lemma_known(recent, branch.oid);
    let known = recent.filter(|c: CommitView| c.id == branch.oid);
    let label = html::escaped_text(short);
    let none: Seq<char> = Seq::empty();
    assert(html::escaped_text(none) =~= none);
    if known.len() > 0 {
        lemma_faint_row(
            label,
            html::escaped_text(known[0].subject),
            html::escaped_text(known[0].author),
            pages::shown_time(known[0].time),
        );
    } else {
        lemma_faint_row(label, html::escaped_text(branch.oid), none, none);
    }
}

proof fn lemma_branch_rows(list: Seq<RefView>, shorts: Seq<Seq<char>>, recent: Seq<CommitView>)
    requires
        list.len() == shorts.len(),
        forall|i: int| 0 <= i < list.len() ==> goes_by(#[trigger] list[i], shorts[i]),
    ensures
        summary::branch_rows(list, recent) == concat(
            Seq::new(list.len(), |i: int| branch_line(shorts[i], list[i].oid, recent)),
        ),
    decreases list.len(),
{
    let lines = Seq::new(list.len(), |i: int| branch_line(shorts[i], list[i].oid, recent));
    if list.len() > 0 {
        let rest = list.drop_last();
        let fewer = shorts.drop_last();
        assert forall|i: int| 0 <= i < rest.len() implies goes_by(#[trigger] rest[i], fewer[i]) by {
            assert(rest[i] == list[i]);
        }
        lemma_branch_rows(rest, fewer, recent);
        assert(lines.drop_last() =~= Seq::new(
            rest.len(),
            |i: int| branch_line(fewer[i], rest[i].oid, recent),
        ));
        let n = list.len() - 1;
        assert(goes_by(list[n], shorts[n]));
        lemma_branch_row(list[n], shorts[n], recent);
    } else {
        assert(lines =~= Seq::empty());
    }
}

/// The row of a commit in the summary: its time, its subject, which leads to its
/// page, and its author.
pub open spec fn recent_line(name: Seq<char>, c: CommitView) -> Seq<char> {
    row(
        seq![
            cell(pages::shown_time(c.time)),
            cell(link(pages::commit_target(name, c.id), c.subject)),
            cell(html::escaped_text(c.author)),
        ],
    )
}

proof fn lemma_recent_rows(name: Seq<char>, list: Seq<CommitView>)
    requires
        forall|k: int|
            0 <= k < list.len() ==> html::escaped_attr((#[trigger] list[k]).id) == list[k].id,
    ensures
        summary::recent_rows(name, list) == concat(
            list.map_values(|c: CommitView| recent_line(name, c)),
        ),
    decreases list.len(),
{
    let lines = list.map_values(|c: CommitView| recent_line(name, c));
    if list.len() > 0 {
        let rest = list.drop_last();
        let c = list[list.len() - 1];
        assert forall|k: int| 0 <= k < rest.len() implies html::escaped_attr(
            (#[trigger] rest[k]).id,
        ) == rest[k].id by {
            assert(rest[k] == list[k]);
        }
        lemma_recent_rows(name, rest);
        assert(lines.drop_last() =~= rest.map_values(|c: CommitView| recent_line(name, c)));
        pages::lemma_commit_link(name, c.id, c.subject);
        pages::lemma_three_cells(
            pages::shown_time(c.time),
            link(pages::commit_target(name, c.id), c.subject),
            html::escaped_text(c.author),
        );
    } else {
        assert(lines =~= Seq::empty());
    }
}

/// The refs of a list whose names start with `refs/heads/`, in their order.
pub open spec fn below_heads(list: Seq<RefView>) -> Seq<RefView> {
    list.filter(|r: RefView| "refs/heads/"@.is_prefix_of(r.name))
}

proof fn lemma_below_heads(list: Seq<RefView>)
    ensures
        reader::branches_in(list) == below_heads(list),
    decreases list.len(),
{
    reveal(Seq::filter);
    if list.len() > 0 {
        lemma_below_heads(list.drop_last());
        let p = "refs/heads/"@;
        let name = list.last().name;
        if p.is_prefix_of(name) {
            assert(name.take(p.len() as int) =~= p);
        }
        if text::has_prefix(name, p) {
            assert(p =~= name.subrange(0, p.len() as int));
        }
    } else {
        assert(reader::branches_in(list) =~= below_heads(list));
    }
}

/// The first of a list of branches, eight at most.
pub open spec fn first_branches(list: Seq<RefView>) -> Seq<RefView> {
    if list.len() <= 8 {
        list
    } else {
        list.take(8)
    }
}

/// The summary shows the first eight branches, the first ten commits along first
/// parents from HEAD, and the command that clones the repository.
#[verifier::spinoff_prover]
#[verifier::rlimit(40)]
pub proof fn law_summary_shows_branches_and_commits(
    public_base: Option<Seq<char>>,
    repo: RepoView,
    req: RequestView,
    head: Seq<char>,
    chain: Seq<CommitView>,
    shorts: Seq<Seq<char>>,
)
    requires
        is_chain(repo.files, head, chain),
        goes_far(repo.files, head, chain, 10),
        ({
            let some = first_branches(below_heads(refs::listing(refs::all_refs(repo.files))));
            &&& shorts.len() == some.len()
            &&& forall|i: int| 0 <= i < some.len() ==> goes_by(#[trigger] some[i], shorts[i])
        }),
    ensures
        ({
            let some = first_branches(below_heads(refs::listing(refs::all_refs(repo.files))));
            let recent = first_of_chain(chain, 10);
            shows(
                summary::summary_page(public_base, repo, req),
                "200 OK"@,
                repo.name,
                summary_text(
                    repo.name,
                    concat(
                        Seq::new(some.len(), |i: int| branch_line(shorts[i], some[i].oid, recent)),
                    ),
                    concat(recent.map_values(|c: CommitView| recent_line(repo.name, c))),
                    parts::clone_command(public_base, req.host, repo.name),
                ),
            )
        }),
{
    let all = refs::listing(refs::all_refs(repo.files));
    let some = first_branches(below_heads(all));
    let recent = first_of_chain(chain, 10);
    pages::law_history_is_the_chain(repo.files, head, chain, 10);
    assert forall|k: int| 0 <= k < recent.len() implies html::escaped_attr(
        (#[trigger] recent[k]).id,
    ) == recent[k].id by {
        pages::lemma_chain_ids(repo.files, head, chain, k);
    }
    lemma_below_heads(all);
    assert(summary::summary_branches(repo) == some);
    lemma_branch_rows(some, shorts, recent);
    lemma_recent_rows(repo.name, recent);
    let command = parts::clone_command(public_base, req.host, repo.name);
    let text = summary_text(
        repo.name,
        concat(Seq::new(some.len(), |i: int| branch_line(shorts[i], some[i].oid, recent))),
        concat(recent.map_values(|c: CommitView| recent_line(repo.name, c))),
        command,
    );
    assert(summary::summary_body(repo, command) == text);
    pages::lemma_ok(repo.name, text);
}

/// The summary of a repository without commits shows its branches by their ids.
pub proof fn law_summary_without_commits(
    public_base: Option<Seq<char>>,
    repo: RepoView,
    req: RequestView,
    shorts: Seq<Seq<char>>,
)
    requires
        pages::no_commits(repo.files),
        ({
            let some = first_branches(below_heads(refs::listing(refs::all_refs(repo.files))));
            &&& shorts.len() == some.len()
            &&& forall|i: int| 0 <= i < some.len() ==> goes_by(#[trigger] some[i], shorts[i])
        }),
    ensures
        ({
            let some = first_branches(below_heads(refs::listing(refs::all_refs(repo.files))));
            shows(
                summary::summary_page(public_base, repo, req),
                "200 OK"@,
                repo.name,
                summary_text(
                    repo.name,
                    concat(
                        Seq::new(
                            some.len(),
                            |i: int| branch_line(shorts[i], some[i].oid, Seq::empty()),
                        ),
                    ),
                    Seq::empty(),
                    parts::clone_command(public_base, req.host, repo.name),
                ),
            )
        }),
{
    let all = refs::listing(refs::all_refs(repo.files));
    let some = first_branches(below_heads(all));
    let none: Seq<CommitView> = Seq::empty();
    pages::law_no_history_without_head(repo.files, 10);
    lemma_below_heads(all);
    assert(summary::summary_branches(repo) == some);
    lemma_branch_rows(some, shorts, none);
    let command = parts::clone_command(public_base, req.host, repo.name);
    let text = summary_text(
        repo.name,
        concat(Seq::new(some.len(), |i: int| branch_line(shorts[i], some[i].oid, none))),
        Seq::empty(),
        command,
    );
    assert(summary::recent_rows(repo.name, none) =~= Seq::<char>::empty());
    assert(summary::summary_body(repo, command) == text);
    pages::lemma_ok(repo.name, text);
}

/// What the summary page says, with its rows and the command that clones the
/// repository.
pub open spec fn summary_text(
    name: Seq<char>,
    branches: Seq<char>,
    commits: Seq<char>,
    command: Seq<char>,
) -> Seq<char> {
    parts::nav_text(name, "summary"@)
        + "<section class=\"summary-block\"><table><tr><th>Branch</th><th>Commit message</th><th>Author</th><th>Age</th></tr>"@
        + branches
        + "</table></section><section class=\"summary-block\"><table><tr><th>Age</th><th>Commit message</th><th>Author</th></tr>"@
        + commits + "</table></section>"@
        + "<section class=\"summary-block\"><h2>Clone</h2><div class=\"clone-url\">"@
        + html::escaped_text(command) + "</div></section>"@
}

}
