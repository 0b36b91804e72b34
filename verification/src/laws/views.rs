//! The pages of trees, blobs and commits: they show what is stored at the
//! revision and the path that a request asks for.

use vstd::prelude::*;
use vstd::utf8::*;
use crate::app::{objects, parts};
use crate::git::bytes::ObjectError;
use crate::git::commit::CommitView;
use crate::git::object::{self, Kind, ObjectView};
use crate::git::reader;
use crate::git::tree::{self, EntryView};
use crate::git::pack;
use crate::http::RequestView;
use crate::laws::browsing::{self, is_entry, leads_down};
use crate::laws::pages::{self, cell, concat, link, row, shows};
use crate::laws::{admission, encodings, links, texts};
use crate::repo::{self, FilesView, RepoView};
use crate::text;
use crate::{html, numbers};

verus! {

/// The revision that a request asks for: HEAD when it names none.
pub open spec fn asked_rev(req: RequestView) -> Seq<char> {
    if req.query.contains_key("rev"@) {
        req.query["rev"@]
    } else {
        "HEAD"@
    }
}

/// The path that a request asks for: the root when it names none.
pub open spec fn asked_path(req: RequestView) -> Seq<char> {
    if req.query.contains_key("path"@) {
        req.query["path"@]
    } else {
        Seq::empty()
    }
}

/// The commit that a request asks for: that of HEAD when it names none.
pub open spec fn asked_id(req: RequestView) -> Seq<char> {
    if req.query.contains_key("id"@) {
        req.query["id"@]
    } else {
        "HEAD"@
    }
}

pub proof fn lemma_asked(req: RequestView)
    ensures
        parts::query_or(req, "rev"@, "HEAD"@) == asked_rev(req),
        parts::query_or(req, "path"@, ""@) == asked_path(req),
        parts::query_or(req, "id"@, "HEAD"@) == asked_id(req),
{
    reveal_strlit("");
    assert(""@ =~= Seq::empty());
}

// ---------------------------------------------------------------------------
// Trees

/// What stands before the rows of a tree.
pub open spec fn tree_head() -> Seq<char> {
    "<h1>tree</h1><table><tr><th>Mode</th><th>Type</th><th>Object</th><th>Name</th></tr>"@
}

/// Where an entry of a directory is shown: directories as trees, anything else as
/// blobs.
pub open spec fn entry_target(
    name: Seq<char>,
    rev: Seq<char>,
    names: Seq<Seq<char>>,
    e: EntryView,
) -> Seq<char> {
    "/repo/"@ + html::path_encoded(name) + (if e.kind == "tree"@ {
        "/tree?rev="@
    } else {
        "/blob?rev="@
    }) + rev + "&path="@ + html::path_encoded(browsing::file_path(names, e.name))
}

/// The row of an entry: its mode, its kind, the first digits of its id, and its
/// name, which leads to its page.
pub open spec fn tree_line(
    name: Seq<char>,
    rev: Seq<char>,
    names: Seq<Seq<char>>,
    e: EntryView,
) -> Seq<char> {
    row(
        seq![
            cell(html::escaped_text(e.mode)),
            cell(html::escaped_text(e.kind)),
            cell(html::escaped_text(e.oid.take(8))),
            cell(link(entry_target(name, rev, names, e), e.name)),
        ],
    )
}

proof fn lemma_entry_ids(data: Seq<u8>, pos: int)
    ensures
        tree::entries_from(data, pos) matches Ok(entries) ==> forall|k: int|
            0 <= k < entries.len() ==> texts::is_id((#[trigger] entries[k]).oid),
    decreases data.len() - pos,
{
    if 0 <= pos < data.len() {
        match tree::entry_at(data, pos) {
            Err(_) => {},
            Ok((entry, next)) => {
                let id = data.subrange(next - 20, next);
                encodings::law_hex_id_round_trip(id);
                texts::law_object_ids(entry.oid);
                lemma_entry_ids(data, next);
                match tree::entries_from(data, next) {
                    Err(_) => {},
                    Ok(rest) => {
                        let all = seq![entry] + rest;
                        assert forall|k: int| 0 <= k < all.len() implies texts::is_id(
                            (#[trigger] all[k]).oid,
                        ) by {
                            if k > 0 {
                                assert(all[k] == rest[k - 1]);
                            }
                        }
                    },
                }
            },
        }
    }
}

pub proof fn lemma_child(names: Seq<Seq<char>>, name: Seq<char>)
    requires
        forall|i: int| 0 <= i < names.len() ==> (#[trigger] names[i]).len() > 0,
    ensures
        objects::child_path(text::join(names, "/"@), name) == browsing::file_path(names, name),
{
    let path = text::join(names, "/"@);
    let all = names.push(name);
    assert(all.drop_last() =~= names);
    if names.len() == 0 {
        assert(path =~= Seq::empty());
        assert(all =~= seq![name]);
        reveal_with_fuel(text::join, 2);
        assert(text::join(all, "/"@) =~= name);
    } else {
        assert(path.len() > 0) by {
            assert(names[names.len() - 1].len() > 0);
            assert(names.last().len() > 0);
            if names.len() == 1 {
                assert(names =~= seq![names[0]]);
                reveal_with_fuel(text::join, 2);
            }
        }
    }
}

proof fn lemma_entry_literals()
    ensures
        "</td><td><a href=\"/repo/"@ == "</td><td>"@ + ("<a href=\""@ + "/repo/"@),
        "/tree?rev="@ == "/"@ + "tree"@ + "?rev="@,
        "/blob?rev="@ == "/"@ + "blob"@ + "?rev="@,
        "</a></td></tr>"@ == "</a>"@ + "</td></tr>"@,
{
    reveal_strlit("</td><td><a href=\"/repo/");
    reveal_strlit("</td><td>");
    reveal_strlit("<a href=\"");
    reveal_strlit("/repo/");
    reveal_strlit("/tree?rev=");
    reveal_strlit("/blob?rev=");
    reveal_strlit("/");
    reveal_strlit("tree");
    reveal_strlit("blob");
    reveal_strlit("?rev=");
    reveal_strlit("</a></td></tr>");
    reveal_strlit("</a>");
    reveal_strlit("</td></tr>");
    assert("</td><td><a href=\"/repo/"@ =~= "</td><td>"@ + ("<a href=\""@ + "/repo/"@));
    assert("/tree?rev="@ =~= "/"@ + "tree"@ + "?rev="@);
    assert("/blob?rev="@ =~= "/"@ + "blob"@ + "?rev="@);
    assert("</a></td></tr>"@ =~= "</a>"@ + "</td></tr>"@);
}

proof fn lemma_tree_row(name: Seq<char>, rev: Seq<char>, names: Seq<Seq<char>>, e: EntryView)
    requires
        html::escaped_attr(rev) == rev,
        forall|i: int| 0 <= i < names.len() ==> (#[trigger] names[i]).len() > 0,
        texts::is_id(e.oid),
    ensures
        objects::tree_row(name, rev, text::join(names, "/"@), e) == tree_line(name, rev, names, e),
{
    let path = text::join(names, "/"@);
    let target = entry_target(name, rev, names, e);
    pages::law_short_form_of_id(e.oid);
    lemma_child(names, e.name);
    links::law_encoded_needs_no_escape(name);
    links::law_encoded_needs_no_escape(browsing::file_path(names, e.name));
    lemma_entry_literals();
    pages::lemma_four_cells(
        html::escaped_text(e.mode),
        html::escaped_text(e.kind),
        html::escaped_text(e.oid.take(8)),
        link(target, e.name),
    );
    let start = "<tr><td>"@ + html::escaped_text(e.mode) + "</td><td>"@ + html::escaped_text(e.kind)
        + "</td><td>"@ + html::escaped_text(e.oid.take(8));
    let kind = if e.kind == "tree"@ {
        "tree"@
    } else {
        "blob"@
    };
    let child = html::path_encoded(browsing::file_path(names, e.name));
    let encoded = html::path_encoded(name);
    lemma_row_shape(
        start,
        "/repo/"@ + encoded,
        kind,
        rev,
        child,
        html::escaped_text(e.name),
    );
    lemma_shift(start + "</td><td>"@, "<a href=\""@ + "/repo/"@, encoded);
    assert(start + ("</td><td>"@ + ("<a href=\""@ + "/repo/"@)) =~= start + "</td><td>"@ + (
    "<a href=\""@ + "/repo/"@));
    assert("<a href=\""@ + "/repo/"@ + encoded =~= "<a href=\""@ + ("/repo/"@ + encoded));
    assert(target =~= "/repo/"@ + encoded + ("/"@ + kind + "?rev="@) + rev + "&path="@ + child);
}

proof fn lemma_shift(a: Seq<char>, b: Seq<char>, c: Seq<char>)
    ensures
        a + b + c == a + (b + c),
{
    assert(a + b + c =~= a + (b + c));
}

/// The pieces of a row, put together from the left and by its link.
proof fn lemma_row_shape(
    start: Seq<char>,
    base: Seq<char>,
    kind: Seq<char>,
    rev: Seq<char>,
    child: Seq<char>,
    shown: Seq<char>,
)
    ensures
        start + "</td><td>"@ + ("<a href=\""@ + base) + "/"@ + kind + "?rev="@ + rev + "&path="@
            + child + "\">"@ + shown + ("</a>"@ + "</td></tr>"@) == start + "</td><td>"@ + (
        "<a href=\""@ + (base + ("/"@ + kind + "?rev="@) + rev + "&path="@ + child) + "\">"@ + shown
            + "</a>"@) + "</td></tr>"@,
{
    let u = start + "</td><td>"@;
    let a = "<a href=\""@;
    let t1 = base + ("/"@ + kind + "?rev="@);
    let t2 = t1 + rev;
    let t3 = t2 + "&path="@;
    let t4 = t3 + child;
    assert(u + (a + base) + "/"@ + kind + "?rev="@ =~= u + (a + t1));
    assert(u + (a + t1) + rev =~= u + (a + t2));
    assert(u + (a + t2) + "&path="@ =~= u + (a + t3));
    assert(u + (a + t3) + child =~= u + (a + t4));
    assert(u + (a + t4) + "\">"@ =~= u + (a + t4 + "\">"@));
    assert(u + (a + t4 + "\">"@) + shown =~= u + (a + t4 + "\">"@ + shown));
    assert(u + (a + t4 + "\">"@ + shown) + ("</a>"@ + "</td></tr>"@) =~= u + (a + t4 + "\">"@
        + shown + "</a>"@) + "</td></tr>"@);
}

proof fn lemma_tree_rows(
    name: Seq<char>,
    rev: Seq<char>,
    names: Seq<Seq<char>>,
    list: Seq<EntryView>,
)
    requires
        html::escaped_attr(rev) == rev,
        forall|i: int| 0 <= i < names.len() ==> (#[trigger] names[i]).len() > 0,
        forall|k: int| 0 <= k < list.len() ==> texts::is_id((#[trigger] list[k]).oid),
    ensures
        objects::tree_rows(name, rev, text::join(names, "/"@), list) == concat(
            list.map_values(|e: EntryView| tree_line(name, rev, names, e)),
        ),
    decreases list.len(),
{
    let path = text::join(names, "/"@);
    let lines = list.map_values(|e: EntryView| tree_line(name, rev, names, e));
    if list.len() > 0 {
        let rest = list.drop_last();
        let e = list[list.len() - 1];
        assert forall|k: int| 0 <= k < rest.len() implies texts::is_id((#[trigger] rest[k]).oid) by {
            assert(rest[k] == list[k]);
        }
        lemma_tree_rows(name, rev, names, rest);
        assert(lines.drop_last() =~= rest.map_values(
            |e: EntryView| tree_line(name, rev, names, e),
        ));
        lemma_tree_row(name, rev, names, e);
    } else {
        assert(lines =~= Seq::empty());
    }
}

/// The tree page has a row for every entry, in their order, of the directory that
/// the request's path leads to at the request's revision, and no other rows.
pub proof fn law_tree_page_lists_the_directory(
    repo: RepoView,
    req: RequestView,
    c: CommitView,
    ids: Seq<Seq<char>>,
    names: Seq<Seq<char>>,
    entries: Seq<EntryView>,
)
    requires
        admission::ordinary_rev(asked_rev(req)),
        asked_path(req) == text::join(names, "/"@),
        forall|i: int| 0 <= i < names.len() ==> admission::ordinary_part(#[trigger] names[i]),
        reader::commit_at(repo.files, asked_rev(req)) == Some(c),
        leads_down(repo.files, ids, names),
        ids[0] == c.tree,
        reader::tree_at(repo.files, ids.last()) == Ok::<Seq<EntryView>, ObjectError>(entries),
    ensures
        shows(
            objects::tree_page(repo, req),
            "200 OK"@,
            "tree"@,
            parts::nav_text(repo.name, "tree"@) + tree_head() + concat(
                entries.map_values(
                    |e: EntryView| tree_line(repo.name, asked_rev(req), names, e),
                ),
            ) + "</table>"@,
        ),
{
    let rev = asked_rev(req);
    lemma_asked(req);
    admission::law_ordinary_revisions_are_accepted(rev);
    admission::law_ordinary_paths_are_accepted(names);
    links::law_revision_needs_no_escape(rev);
    browsing::law_directory_is_listed(repo.files, rev, c, ids, names, entries);
    let root = object::object(repo.files, ids.last())->Ok_0;
    lemma_entry_ids(root.data, 0);
    assert forall|i: int| 0 <= i < names.len() implies (#[trigger] names[i]).len() > 0 by {
        assert(admission::ordinary_part(names[i]));
    }
    lemma_tree_rows(repo.name, rev, names, entries);
    pages::lemma_ok(
        "tree"@,
        parts::nav_text(repo.name, "tree"@) + tree_head() + concat(
            entries.map_values(|e: EntryView| tree_line(repo.name, rev, names, e)),
        ) + "</table>"@,
    );
}

/// The tree page has no rows where there is no commit, and where the path leads
/// nowhere.
pub proof fn law_tree_page_is_empty_at_dead_ends(
    repo: RepoView,
    req: RequestView,
    names: Seq<Seq<char>>,
)
    requires
        admission::ordinary_rev(asked_rev(req)),
        asked_path(req) == text::join(names, "/"@),
        forall|i: int| 0 <= i < names.len() ==> admission::ordinary_part(#[trigger] names[i]),
        reader::commit_at(repo.files, asked_rev(req)) matches Some(c) ==> names.len() > 0
            && browsing::leads_nowhere(repo.files, c.tree, names),
    ensures
        shows(
            objects::tree_page(repo, req),
            "200 OK"@,
            "tree"@,
            parts::nav_text(repo.name, "tree"@) + tree_head() + "</table>"@,
        ),
{
    let rev = asked_rev(req);
    lemma_asked(req);
    admission::law_ordinary_revisions_are_accepted(rev);
    admission::law_ordinary_paths_are_accepted(names);
    lemma_dead_end(repo.files, rev, names);
    let body = parts::nav_text(repo.name, "tree"@) + tree_head() + "</table>"@;
    assert(parts::nav_text(repo.name, "tree"@) + tree_head() + Seq::<char>::empty() + "</table>"@
        =~= body);
    pages::lemma_ok("tree"@, body);
}

proof fn lemma_dead_end(files: FilesView, rev: Seq<char>, names: Seq<Seq<char>>)
    requires
        forall|i: int| 0 <= i < names.len() ==> admission::ordinary_part(#[trigger] names[i]),
        reader::commit_at(files, rev) matches Some(c) ==> names.len() > 0
            && browsing::leads_nowhere(files, c.tree, names),
    ensures
        reader::directory(files, rev, text::join(names, "/"@)) == Seq::<EntryView>::empty(),
        names.len() > 0 ==> text::join(names, "/"@).len() > 0 && reader::file_contents(
            files,
            rev,
            text::join(names, "/"@),
            0x10_0000,
        ) is None,
{
    if names.len() > 0 {
        assert(text::join(names, "/"@).len() > 0) by {
            assert(admission::ordinary_part(names[names.len() - 1]));
            assert(names.last().len() > 0);
            if names.len() == 1 {
                assert(names =~= seq![names[0]]);
                reveal_with_fuel(text::join, 2);
            }
        }
    }
    match reader::commit_at(files, rev) {
        None => {},
        Some(c) => {
            assert forall|i: int| 0 <= i < names.len() implies !(#[trigger] names[i]).contains(
                '/',
            ) by {
                assert(admission::ordinary_part(names[i]));
            }
            browsing::law_dead_end_holds_nothing(files, rev, c, names, 0x10_0000);
        },
    }
}

/// There is no blob page where the path leads nowhere.
pub proof fn law_no_blob_at_dead_ends(repo: RepoView, req: RequestView, names: Seq<Seq<char>>)
    requires
        admission::ordinary_rev(asked_rev(req)),
        names.len() > 0,
        asked_path(req) == text::join(names, "/"@),
        forall|i: int| 0 <= i < names.len() ==> admission::ordinary_part(#[trigger] names[i]),
        reader::commit_at(repo.files, asked_rev(req)) matches Some(c) ==> browsing::leads_nowhere(
            repo.files,
            c.tree,
            names,
        ),
    ensures
        shows(
            objects::blob_page(repo, req),
            "404 Not Found"@,
            "blob not found"@,
            "<h1>blob not found or too large</h1>"@,
        ),
{
    let rev = asked_rev(req);
    lemma_asked(req);
    admission::law_ordinary_revisions_are_accepted(rev);
    admission::law_ordinary_paths_are_accepted(names);
    lemma_dead_end(repo.files, rev, names);
    pages::lemma_missing("blob not found"@, "<h1>blob not found or too large</h1>"@);
}

// ---------------------------------------------------------------------------
// Blobs

/// The blob page shows the contents of the file that the request's path leads to
/// at the request's revision, up to a megabyte of them.
pub proof fn law_blob_page_shows_the_file(
    repo: RepoView,
    req: RequestView,
    c: CommitView,
    ids: Seq<Seq<char>>,
    names: Seq<Seq<char>>,
    name: Seq<char>,
    e: EntryView,
    contents: Seq<u8>,
)
    requires
        admission::ordinary_rev(asked_rev(req)),
        asked_path(req) == browsing::file_path(names, name),
        forall|i: int| 0 <= i < names.len() ==> admission::ordinary_part(#[trigger] names[i]),
        admission::ordinary_part(name),
        reader::commit_at(repo.files, asked_rev(req)) == Some(c),
        leads_down(repo.files, ids, names),
        ids[0] == c.tree,
        is_entry(repo.files, ids.last(), name, e),
        e.kind == "blob"@,
        object::object(repo.files, e.oid) == Ok::<ObjectView, ObjectError>(
            ObjectView { kind: Kind::Blob, data: contents },
        ),
    ensures
        contents.len() <= 0x10_0000 ==> shows(
            objects::blob_page(repo, req),
            "200 OK"@,
            asked_path(req),
            parts::nav_text(repo.name, "tree"@) + "<h1>"@ + html::escaped_text(asked_path(req))
                + "</h1><pre>"@ + html::escaped_text(text::lossy(contents)) + "</pre>"@,
        ),
        contents.len() > 0x10_0000 ==> shows(
            objects::blob_page(repo, req),
            "404 Not Found"@,
            "blob not found"@,
            "<h1>blob not found or too large</h1>"@,
        ),
{
    let rev = asked_rev(req);
    let path = asked_path(req);
    let all = names.push(name);
    lemma_asked(req);
    admission::law_ordinary_revisions_are_accepted(rev);
    assert forall|i: int| 0 <= i < all.len() implies admission::ordinary_part(#[trigger] all[i]) by {
        if i < names.len() {
            assert(all[i] == names[i]);
        }
    }
    admission::law_ordinary_paths_are_accepted(all);
    assert(path.len() > 0) by {
        assert(all.last() == name);
        if names.len() == 0 {
            assert(all =~= seq![name]);
            reveal_with_fuel(text::join, 2);
        }
    }
    lemma_entry_has_id(repo.files, ids.last(), name, e);
    browsing::law_file_is_read_along_its_path(
        repo.files,
        rev,
        c,
        ids,
        names,
        name,
        e,
        contents,
        0x10_0000,
    );
    pages::lemma_ok(
        path,
        parts::nav_text(repo.name, "tree"@) + "<h1>"@ + html::escaped_text(path)
            + "</h1><pre>"@ + html::escaped_text(text::lossy(contents)) + "</pre>"@,
    );
    pages::lemma_missing("blob not found"@, "<h1>blob not found or too large</h1>"@);
}

proof fn lemma_entry_has_id(files: FilesView, root: Seq<char>, name: Seq<char>, e: EntryView)
    requires
        is_entry(files, root, name, e),
    ensures
        texts::is_id(e.oid),
        encode_utf8(e.oid).len() == 40,
{
    let entries = reader::tree_at(files, root)->Ok_0;
    let o = object::object(files, root)->Ok_0;
    lemma_entry_ids(o.data, 0);
    let k = choose|k: int| browsing::first_named(entries, k, name) && #[trigger] entries[k] == e;
    assert(texts::is_id(entries[k].oid));
    assert forall|i: int| 0 <= i < e.oid.len() implies (#[trigger] e.oid[i] as u32) < 0x80 by {
        assert(texts::digit(e.oid[i]) || 97 <= e.oid[i] as u32 <= 102 || 65 <= e.oid[i] as u32
            <= 70);
    }
    pages::lemma_ascii(e.oid);
}

/// A text that was stored is shown as that text.
pub proof fn law_stored_text_is_shown(t: Seq<char>)
    ensures
        text::lossy(encode_utf8(t)) == t,
{
    encode_utf8_valid_utf8(t);
    encode_utf8_decode_utf8(t);
}

/// There is no blob at a revision that stands for no commit.
pub proof fn law_no_blob_without_commit(repo: RepoView, req: RequestView)
    requires
        admission::ordinary_rev(asked_rev(req)),
        crate::security::git_path_ok(asked_path(req)),
        asked_path(req).len() > 0,
        reader::commit_at(repo.files, asked_rev(req)) is None,
    ensures
        shows(
            objects::blob_page(repo, req),
            "404 Not Found"@,
            "blob not found"@,
            "<h1>blob not found or too large</h1>"@,
        ),
{
    lemma_asked(req);
    admission::law_ordinary_revisions_are_accepted(asked_rev(req));
    pages::lemma_missing("blob not found"@, "<h1>blob not found or too large</h1>"@);
}

// ---------------------------------------------------------------------------
// Commits

/// What the commit page says of a commit.
pub open spec fn commit_text(name: Seq<char>, c: CommitView) -> Seq<char> {
    parts::nav_text(name, "log"@) + "<h1>commit "@ + html::escaped_text(c.id)
        + "</h1><p><strong>Author:</strong> "@ + html::escaped_text(c.author)
        + "</p><p><strong>Time:</strong> "@ + pages::shown_time(c.time)
        + "</p><p><strong>Parents:</strong> "@ + html::escaped_text(text::join(c.parents, " "@))
        + "</p><pre>"@ + html::escaped_text(c.subject) + "</pre>"@
}

proof fn lemma_commit_body(name: Seq<char>, c: CommitView)
    ensures
        objects::commit_body(name, c) == commit_text(name, c),
{
}

/// The commit page shows the commit that the request asks for: its id, its author,
/// its time, its parents and its subject.
pub proof fn law_commit_page_shows_the_commit(repo: RepoView, req: RequestView, c: CommitView)
    requires
        admission::ordinary_rev(asked_id(req)),
        reader::commit_at(repo.files, asked_id(req)) == Some(c),
    ensures
        shows(
            objects::commit_page(repo, req),
            "200 OK"@,
            "commit "@ + c.id.take(8),
            commit_text(repo.name, c),
        ),
{
    lemma_asked(req);
    admission::law_ordinary_revisions_are_accepted(asked_id(req));
    pages::lemma_commit_id(repo.files, asked_id(req));
    lemma_commit_body(repo.name, c);
    pages::lemma_ok("commit "@ + c.id.take(8), commit_text(repo.name, c));
}

/// A revision that stands for no commit has no commit page.
pub proof fn law_no_commit_page_without_commit(repo: RepoView, req: RequestView)
    requires
        admission::ordinary_rev(asked_id(req)),
        reader::commit_at(repo.files, asked_id(req)) is None,
    ensures
        shows(
            objects::commit_page(repo, req),
            "404 Not Found"@,
            "commit not found"@,
            "<h1>commit not found</h1>"@,
        ),
{
    lemma_asked(req);
    admission::law_ordinary_revisions_are_accepted(asked_id(req));
    pages::lemma_missing("commit not found"@, "<h1>commit not found</h1>"@);
}

/// The diff page names the commit that the request asks for.
pub proof fn law_diff_page_names_the_commit(repo: RepoView, req: RequestView)
    requires
        admission::ordinary_rev(asked_id(req)),
    ensures
        shows(
            objects::diff_page(repo, req),
            "200 OK"@,
            "diff"@,
            parts::nav_text(repo.name, "log"@) + "<h1>diff "@ + html::escaped_text(asked_id(req))
                + "</h1>"@ + "<p class=\"muted\">Native textual diff is queued next; commit/tree/blob reading is active.</p>"@,
        ),
{
    lemma_asked(req);
    admission::law_ordinary_revisions_are_accepted(asked_id(req));
    pages::lemma_ok(
        "diff"@,
        parts::nav_text(repo.name, "log"@) + "<h1>diff "@ + html::escaped_text(asked_id(req))
            + "</h1>"@ + "<p class=\"muted\">Native textual diff is queued next; commit/tree/blob reading is active.</p>"@,
    );
}

// ---------------------------------------------------------------------------
// What a full id shows does not depend on HEAD

/// True when two repositories store the same objects.
pub open spec fn same_objects(a: FilesView, b: FilesView) -> bool {
    a.loose == b.loose && a.packs == b.packs
}

/// An object depends on the stored objects alone.
pub proof fn law_object_is_a_matter_of_objects(a: FilesView, b: FilesView, oid: Seq<char>, budget: nat)
    requires
        same_objects(a, b),
    ensures
        object::object_within(a, oid, budget) == object::object_within(b, oid, budget),
    decreases budget, 40nat,
{
    match object::loose_object(a, oid) {
        Ok(_) => {},
        Err(_) => match object::locate(a.packs, 0, oid) {
            None => {},
            Some((name, offset)) => match repo::stored(a.packs, name) {
                None => {},
                Some(data) => {
                    lemma_pack_object(a, b, data, offset as int, 0, budget);
                },
            },
        },
    }
}

proof fn lemma_pack_object(
    a: FilesView,
    b: FilesView,
    data: Seq<u8>,
    offset: int,
    depth: nat,
    budget: nat,
)
    requires
        same_objects(a, b),
    ensures
        object::pack_object(a, data, offset, depth, budget) == object::pack_object(
            b,
            data,
            offset,
            depth,
            budget,
        ),
    decreases budget, (39 - depth) as nat,
{
    if depth <= 32 {
        match pack::pack_header(data, offset) {
            Err(_) => {},
            Ok((kind, _size, pos)) => {
                if kind == 6 {
                    match pack::ofs_base(data, offset, pos) {
                        Err(_) => {},
                        Ok((base, _next)) => lemma_pack_object(a, b, data, base, depth + 1, budget),
                    }
                } else if kind == 7 && pos + 20 <= data.len() && budget > 0 {
                    law_object_is_a_matter_of_objects(
                        a,
                        b,
                        numbers::to_hex(data.subrange(pos, pos + 20)),
                        (budget - 1) as nat,
                    );
                }
            },
        }
    }
}

proof fn lemma_entries_along(a: FilesView, b: FilesView, root: Seq<char>, parts: Seq<Seq<char>>)
    requires
        same_objects(a, b),
    ensures
        reader::entry_along(a, root, parts) == reader::entry_along(b, root, parts),
    decreases parts.len(),
{
    law_object_is_a_matter_of_objects(a, b, root, object::total_bytes(a.packs));
    if parts.len() > 0 {
        match reader::tree_at(a, root) {
            Err(_) => {},
            Ok(entries) => match reader::entry_named(entries, parts[0]) {
                None => {},
                Some(e) => lemma_entries_along(a, b, e.oid, parts.drop_first()),
            },
        }
    }
}

/// Where a request asks for a commit by its full id, its tree, blob and commit
/// pages are the same in two repositories that store the same objects, whatever
/// HEAD and the branches stand for.
pub proof fn law_full_id_needs_no_branches(a: RepoView, b: RepoView, req: RequestView)
    requires
        a.name == b.name,
        same_objects(a.files, b.files),
    ensures
        texts::is_id(asked_rev(req)) ==> objects::blob_page(a, req) == objects::blob_page(b, req)
            && objects::tree_page(a, req) == objects::tree_page(b, req),
        texts::is_id(asked_id(req)) ==> objects::commit_page(a, req) == objects::commit_page(
            b,
            req,
        ),
{
    let total = object::total_bytes(a.files.packs);
    lemma_asked(req);
    if texts::is_id(asked_id(req)) {
        texts::law_object_ids(asked_id(req));
        law_object_is_a_matter_of_objects(a.files, b.files, text::lower(asked_id(req)), total);
    }
    if texts::is_id(asked_rev(req)) {
        let rev = asked_rev(req);
        let path = asked_path(req);
        texts::law_object_ids(rev);
        law_object_is_a_matter_of_objects(a.files, b.files, text::lower(rev), total);
        match reader::commit_at(a.files, rev) {
            None => {},
            Some(c) => {
                lemma_entries_along(a.files, b.files, c.tree, text::split(path, '/'));
                law_object_is_a_matter_of_objects(a.files, b.files, c.tree, total);
                match reader::entry_at_path(a.files, c.tree, path) {
                    None => {},
                    Some(e) => law_object_is_a_matter_of_objects(a.files, b.files, e.oid, total),
                }
            },
        }
    }
}

// ---------------------------------------------------------------------------
// Refusals

/// A revision that is not ordinary is refused by every page that takes one.
pub proof fn law_odd_revision_is_refused(repo: RepoView, req: RequestView)
    ensures
        !admission::ordinary_rev(asked_rev(req)) ==> {
            &&& shows(
                objects::tree_page(repo, req),
                "400 Bad Request"@,
                "bad path"@,
                "<h1>bad path</h1>"@,
            )
            &&& shows(
                objects::blob_page(repo, req),
                "400 Bad Request"@,
                "bad blob"@,
                "<h1>bad blob</h1>"@,
            )
        },
        !admission::ordinary_rev(asked_id(req)) ==> {
            &&& shows(
                objects::commit_page(repo, req),
                "400 Bad Request"@,
                "bad revision"@,
                "<h1>bad revision</h1>"@,
            )
            &&& shows(
                objects::diff_page(repo, req),
                "400 Bad Request"@,
                "bad revision"@,
                "<h1>bad revision</h1>"@,
            )
        },
{
    lemma_asked(req);
    admission::law_ordinary_revisions_are_accepted(asked_rev(req));
    admission::law_ordinary_revisions_are_accepted(asked_id(req));
    pages::lemma_bad("bad path"@, "<h1>bad path</h1>"@);
    pages::lemma_bad("bad blob"@, "<h1>bad blob</h1>"@);
    pages::lemma_bad("bad revision"@, "<h1>bad revision</h1>"@);
}

/// A path with a name that is not ordinary is refused, and so is a blob page
/// without a path.
pub proof fn law_odd_path_is_refused(
    repo: RepoView,
    req: RequestView,
    names: Seq<Seq<char>>,
    k: int,
)
    requires
        asked_path(req) == text::join(names, "/"@),
        forall|i: int| 0 <= i < names.len() ==> !(#[trigger] names[i]).contains('/'),
        asked_path(req).len() > 0 ==> 0 <= k < names.len() && !admission::ordinary_part(names[k]),
    ensures
        asked_path(req).len() > 0 ==> shows(
            objects::tree_page(repo, req),
            "400 Bad Request"@,
            "bad path"@,
            "<h1>bad path</h1>"@,
        ),
        shows(
            objects::blob_page(repo, req),
            "400 Bad Request"@,
            "bad blob"@,
            "<h1>bad blob</h1>"@,
        ),
{
    lemma_asked(req);
    if asked_path(req).len() > 0 {
        admission::law_other_paths_are_refused(names, k);
    }
    pages::lemma_bad("bad path"@, "<h1>bad path</h1>"@);
    pages::lemma_bad("bad blob"@, "<h1>bad blob</h1>"@);
}

}
