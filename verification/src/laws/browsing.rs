//! Browsing: directories and files are found along their paths.

use vstd::prelude::*;
use vstd::utf8::*;
use crate::git::bytes::ObjectError;
use crate::git::commit::CommitView;
use crate::git::object::{self, Kind, ObjectView};
use crate::git::reader;
use crate::git::tree::{self, EntryView};
use crate::laws::{lists, objects};
use crate::repo::FilesView;
use crate::text;

verus! {

// ---------------------------------------------------------------------------
// Entries

/// True when `e` is the first entry of that name in the tree `root`.
pub open spec fn is_entry(files: FilesView, root: Seq<char>, name: Seq<char>, e: EntryView) -> bool {
    reader::tree_at(files, root) matches Ok(entries) && exists|k: int|
        first_named(entries, k, name) && #[trigger] entries[k] == e
}

/// True when the entry with number `k` is the first of that name.
pub open spec fn first_named(entries: Seq<EntryView>, k: int, name: Seq<char>) -> bool {
    &&& 0 <= k < entries.len()
    &&& entries[k].name == name
    &&& forall|j: int| 0 <= j < k ==> (#[trigger] entries[j]).name != name
}

/// An entry is found by its name.
pub proof fn law_entry_is_found_by_name(entries: Seq<EntryView>, k: int, name: Seq<char>)
    requires
        first_named(entries, k, name),
    ensures
        reader::entry_named(entries, name) == Some(entries[k]),
    decreases k,
{
    if k > 0 {
        let rest = entries.drop_first();
        assert(entries[0].name != name);
        assert(rest[k - 1] == entries[k]);
        assert forall|j: int| 0 <= j < k - 1 implies (#[trigger] rest[j]).name != name by {
            assert(rest[j] == entries[j + 1]);
        }
        law_entry_is_found_by_name(rest, k - 1, name);
    }
}

/// A name that no entry has leads to none.
pub proof fn law_missing_entry_is_not_found(entries: Seq<EntryView>, name: Seq<char>)
    requires
        forall|j: int| 0 <= j < entries.len() ==> (#[trigger] entries[j]).name != name,
    ensures
        reader::entry_named(entries, name) is None,
    decreases entries.len(),
{
    if entries.len() > 0 {
        let rest = entries.drop_first();
        assert forall|j: int| 0 <= j < rest.len() implies (#[trigger] rest[j]).name != name by {
            assert(rest[j] == entries[j + 1]);
        }
        law_missing_entry_is_not_found(rest, name);
    }
}

/// Directories, submodules and files are told by their modes: 40000 is a
/// directory, 160000 a submodule, and any other mode a file.
pub proof fn law_mode_tells_the_kind(mode: Seq<char>)
    ensures
        mode == "40000"@ || mode == "040000"@ ==> tree::mode_kind(mode) == "tree"@,
        mode == "160000"@ ==> tree::mode_kind(mode) == "commit"@,
        mode != "40000"@ && mode != "040000"@ && mode != "160000"@ ==> tree::mode_kind(mode)
            == "blob"@,
{
    reveal_strlit("40000");
    reveal_strlit("040000");
    reveal_strlit("160000");
    assert("040000"@[0] == '0' && "160000"@[0] == '1');
    assert("40000"@.len() == 5 && "160000"@.len() == 6);
}

// ---------------------------------------------------------------------------
// Directories

/// True when the names lead from the tree `ids[0]` down to the tree `ids.last()`,
/// each over a directory.
pub open spec fn leads_down(
    files: FilesView,
    ids: Seq<Seq<char>>,
    names: Seq<Seq<char>>,
) -> bool {
    &&& ids.len() == names.len() + 1
    &&& forall|i: int|
        0 <= i < names.len() ==> !(#[trigger] names[i]).contains('/') && names[i].len() > 0
            && exists|e: EntryView| #[trigger]
            is_entry(files, ids[i], names[i], e) && e.kind == "tree"@ && e.oid == ids[i + 1]
}

/// The directory `first/rest` is the directory `rest` below the directory `first`.
pub proof fn law_directory_goes_down(
    files: FilesView,
    root: Seq<char>,
    first: Seq<char>,
    rest: Seq<char>,
    below: EntryView,
)
    requires
        is_entry(files, root, first, below),
        below.kind == "tree"@,
        !first.contains('/'),
        rest.len() > 0,
    ensures
        reader::tree_at_path(files, root, first + seq!['/'] + rest) == reader::tree_at_path(
            files,
            below.oid,
            rest,
        ),
{
    let entries = reader::tree_at(files, root)->Ok_0;
    let k = choose|k: int| first_named(entries, k, first) && #[trigger] entries[k] == below;
    law_entry_is_found_by_name(entries, k, first);
    objects::law_path_goes_down(files, root, entries, first, rest, below);
}

/// A single name leads to the directory of that name, and nowhere when there is
/// none; the empty path is the root.
pub proof fn law_directory_of_one_name(files: FilesView, root: Seq<char>, name: Seq<char>, e: EntryView)
    requires
        is_entry(files, root, name, e),
        name.len() > 0,
        !name.contains('/'),
    ensures
        e.kind == "tree"@ ==> reader::tree_at_path(files, root, name) == Some(e.oid),
        e.kind != "tree"@ ==> reader::tree_at_path(files, root, name) is None,
        reader::tree_at_path(files, root, Seq::empty()) == Some(root),
{
    let entries = reader::tree_at(files, root)->Ok_0;
    let k = choose|k: int| first_named(entries, k, name) && #[trigger] entries[k] == e;
    law_entry_is_found_by_name(entries, k, name);
    objects::law_single_name_is_entry(files, root, entries, name);
}

/// Names that lead down from a tree lead there as a path.
pub proof fn law_path_leads_to_directory(
    files: FilesView,
    ids: Seq<Seq<char>>,
    names: Seq<Seq<char>>,
)
    requires
        leads_down(files, ids, names),
    ensures
        reader::tree_at_path(files, ids[0], text::join(names, "/"@)) == Some(ids.last()),
    decreases names.len(),
{
    reveal_strlit("/");
    assert("/"@ =~= seq!['/']);
    let path = text::join(names, "/"@);
    if names.len() == 0 {
        assert(path =~= Seq::empty());
    } else {
        let e = choose|e: EntryView| #[trigger]
            is_entry(files, ids[0], names[0], e) && e.kind == "tree"@ && e.oid == ids[1];
        assert(!names[0].contains('/') && names[0].len() > 0);
        if names.len() == 1 {
            assert(names =~= seq![names[0]]);
            reveal_with_fuel(text::join, 2);
            assert(path =~= names[0]);
            law_directory_of_one_name(files, ids[0], names[0], e);
        } else {
            let rest = names.drop_first();
            let below = ids.drop_first();
            text::lemma_join_first(names, "/"@);
            assert forall|i: int| 0 <= i < rest.len() implies !(#[trigger] rest[i]).contains('/')
                && rest[i].len() > 0 && exists|e: EntryView| #[trigger]
                is_entry(files, below[i], rest[i], e) && e.kind == "tree"@ && e.oid == below[i
                    + 1] by {
                assert(rest[i] == names[i + 1]);
                assert(below[i] == ids[i + 1] && below[i + 1] == ids[i + 2]);
            }
            law_path_leads_to_directory(files, below, rest);
            assert(text::join(rest, "/"@).len() > 0) by {
                assert(rest[0] == names[1]);
                assert(names[1].len() > 0);
                if rest.len() > 1 {
                    text::lemma_join_first(rest, "/"@);
                } else {
                    assert(rest =~= seq![rest[0]]);
                    reveal_with_fuel(text::join, 2);
                }
            }
            law_directory_goes_down(files, ids[0], names[0], text::join(rest, "/"@), e);
            assert(below.last() == ids.last());
        }
    }
}

/// The listing of a directory at a revision is that of the tree to which the path
/// leads down from the revision's commit.
pub proof fn law_directory_is_listed(
    files: FilesView,
    rev: Seq<char>,
    c: CommitView,
    ids: Seq<Seq<char>>,
    names: Seq<Seq<char>>,
    entries: Seq<EntryView>,
)
    requires
        reader::commit_at(files, rev) == Some(c),
        leads_down(files, ids, names),
        ids[0] == c.tree,
        reader::tree_at(files, ids.last()) == Ok::<Seq<EntryView>, ObjectError>(entries),
    ensures
        reader::directory(files, rev, text::join(names, "/"@)) == entries,
{
    law_path_leads_to_directory(files, ids, names);
}

/// There is nothing to list at a revision that stands for no commit.
pub proof fn law_nothing_is_listed_without_commit(files: FilesView, rev: Seq<char>, path: Seq<char>)
    requires
        reader::commit_at(files, rev) is None,
    ensures
        reader::directory(files, rev, path) == Seq::<EntryView>::empty(),
{
}

// ---------------------------------------------------------------------------
// Files

/// The path of a file in the directory that the names lead to.
pub open spec fn file_path(names: Seq<Seq<char>>, name: Seq<char>) -> Seq<char> {
    text::join(names.push(name), "/"@)
}

proof fn lemma_entry_below(
    files: FilesView,
    ids: Seq<Seq<char>>,
    names: Seq<Seq<char>>,
    name: Seq<char>,
    e: EntryView,
)
    requires
        leads_down(files, ids, names),
        is_entry(files, ids.last(), name, e),
        !name.contains('/'),
    ensures
        reader::entry_at_path(files, ids[0], file_path(names, name)) == Some(e),
    decreases names.len(),
{
    reveal_strlit("/");
    assert("/"@ =~= seq!['/']);
    let all = names.push(name);
    if names.len() == 0 {
        let entries = reader::tree_at(files, ids[0])->Ok_0;
        let k = choose|k: int| first_named(entries, k, name) && #[trigger] entries[k] == e;
        law_entry_is_found_by_name(entries, k, name);
        objects::law_single_name_is_entry(files, ids[0], entries, name);
        assert(all =~= seq![name]);
        reveal_with_fuel(text::join, 2);
        assert(text::join(all, "/"@) =~= name);
    } else {
        let d = choose|d: EntryView| #[trigger]
            is_entry(files, ids[0], names[0], d) && d.kind == "tree"@ && d.oid == ids[1];
        let rest = names.drop_first();
        let below = ids.drop_first();
        assert(!names[0].contains('/') && names[0].len() > 0);
        assert forall|i: int| 0 <= i < rest.len() implies !(#[trigger] rest[i]).contains('/')
            && rest[i].len() > 0 && exists|e: EntryView| #[trigger]
            is_entry(files, below[i], rest[i], e) && e.kind == "tree"@ && e.oid == below[i
                + 1] by {
            assert(rest[i] == names[i + 1]);
            assert(below[i] == ids[i + 1] && below[i + 1] == ids[i + 2]);
        }
        assert(below.last() == ids.last());
        lemma_entry_below(files, below, rest, name, e);
        let entries = reader::tree_at(files, ids[0])->Ok_0;
        let k = choose|k: int| first_named(entries, k, names[0]) && #[trigger] entries[k] == d;
        law_entry_is_found_by_name(entries, k, names[0]);
        text::lemma_join_first(all, "/"@);
        assert(all.drop_first() =~= rest.push(name));
        assert(all[0] == names[0]);
        objects::law_path_goes_down(files, ids[0], entries, names[0], file_path(rest, name), d);
    }
}

/// The contents of a file at a revision are those that are stored for it in the
/// directory to which its path leads down from the revision's commit, unless they
/// are longer than what was asked for.
pub proof fn law_file_is_read_along_its_path(
    files: FilesView,
    rev: Seq<char>,
    c: CommitView,
    ids: Seq<Seq<char>>,
    names: Seq<Seq<char>>,
    name: Seq<char>,
    e: EntryView,
    contents: Seq<u8>,
    max_bytes: nat,
)
    requires
        reader::commit_at(files, rev) == Some(c),
        leads_down(files, ids, names),
        ids[0] == c.tree,
        is_entry(files, ids.last(), name, e),
        !name.contains('/'),
        e.kind == "blob"@,
        encode_utf8(e.oid).len() == 40,
        object::object(files, e.oid) == Ok::<ObjectView, ObjectError>(
            ObjectView { kind: Kind::Blob, data: contents },
        ),
    ensures
        reader::file_contents(files, rev, file_path(names, name), max_bytes) == (if contents.len()
            <= max_bytes {
            Some(contents)
        } else {
            None
        }),
{
    lemma_entry_below(files, ids, names, name, e);
}

// ---------------------------------------------------------------------------
// Dead ends

/// True when the names lead nowhere from a tree: the tree cannot be read, has no
/// entry of the first name, or has one that is no directory, or one from which the
/// rest leads nowhere.
pub open spec fn leads_nowhere(files: FilesView, root: Seq<char>, names: Seq<Seq<char>>) -> bool
    decreases names.len(),
{
    names.len() > 0 && {
        ||| reader::tree_at(files, root) is Err
        ||| reader::tree_at(files, root) matches Ok(entries) && forall|j: int|
            0 <= j < entries.len() ==> (#[trigger] entries[j]).name != names[0]
        ||| names.len() > 1 && exists|e: EntryView| #[trigger]
            is_entry(files, root, names[0], e) && (e.kind != "tree"@ || leads_nowhere(
                files,
                e.oid,
                names.drop_first(),
            ))
    }
}

proof fn lemma_nowhere(files: FilesView, root: Seq<char>, names: Seq<Seq<char>>)
    requires
        leads_nowhere(files, root, names),
    ensures
        reader::entry_along(files, root, names) is None,
    decreases names.len(),
{
    match reader::tree_at(files, root) {
        Err(_) => {},
        Ok(entries) => {
            if forall|j: int|
                0 <= j < entries.len() ==> (#[trigger] entries[j]).name != names[0] {
                law_missing_entry_is_not_found(entries, names[0]);
            } else {
                let e = choose|e: EntryView| #[trigger]
                    is_entry(files, root, names[0], e) && (e.kind != "tree"@ || leads_nowhere(
                        files,
                        e.oid,
                        names.drop_first(),
                    ));
                let k = choose|k: int|
                    first_named(entries, k, names[0]) && #[trigger] entries[k] == e;
                law_entry_is_found_by_name(entries, k, names[0]);
                if e.kind == "tree"@ {
                    lemma_nowhere(files, e.oid, names.drop_first());
                }
            }
        },
    }
}

/// Where a path leads nowhere there is no entry, no directory and no file.
pub proof fn law_dead_end_holds_nothing(
    files: FilesView,
    rev: Seq<char>,
    c: CommitView,
    names: Seq<Seq<char>>,
    max_bytes: nat,
)
    requires
        reader::commit_at(files, rev) == Some(c),
        leads_nowhere(files, c.tree, names),
        text::join(names, "/"@).len() > 0,
        forall|i: int| 0 <= i < names.len() ==> !(#[trigger] names[i]).contains('/'),
    ensures
        reader::entry_at_path(files, c.tree, text::join(names, "/"@)) is None,
        reader::directory(files, rev, text::join(names, "/"@)) == Seq::<EntryView>::empty(),
        reader::file_contents(files, rev, text::join(names, "/"@), max_bytes) is None,
{
    reveal_strlit("/");
    assert("/"@ =~= seq!['/']);
    lists::law_join_then_split(names, '/');
    lemma_nowhere(files, c.tree, names);
}

/// A directory is no file, and what is no directory is not listed.
pub proof fn law_kinds_are_kept_apart(
    files: FilesView,
    rev: Seq<char>,
    c: CommitView,
    ids: Seq<Seq<char>>,
    names: Seq<Seq<char>>,
    name: Seq<char>,
    e: EntryView,
    max_bytes: nat,
)
    requires
        reader::commit_at(files, rev) == Some(c),
        leads_down(files, ids, names),
        ids[0] == c.tree,
        is_entry(files, ids.last(), name, e),
        !name.contains('/'),
        name.len() > 0,
    ensures
        e.kind != "tree"@ ==> reader::directory(files, rev, file_path(names, name)) == Seq::<
            EntryView,
        >::empty(),
        e.kind != "blob"@ ==> reader::file_contents(files, rev, file_path(names, name), max_bytes)
            is None,
        (object::object(files, e.oid) matches Ok(o) ==> o.kind != Kind::Blob)
            ==> reader::file_contents(files, rev, file_path(names, name), max_bytes) is None,
{
    lemma_entry_below(files, ids, names, name, e);
    assert(file_path(names, name).len() > 0) by {
        let all = names.push(name);
        assert(all.last() == name);
        if names.len() == 0 {
            assert(all =~= seq![name]);
            reveal_with_fuel(text::join, 2);
        }
    }
}

}
