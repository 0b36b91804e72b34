//! What the pages ask of a repository.

use vstd::prelude::*;
use vstd::slice::slice_to_vec;
use vstd::utf8::*;
use crate::git::bytes::{append_bytes, ObjectError};
use crate::git::commit::{self, parse_commit, CommitSummary, CommitView};
use crate::git::object::{self, read_object, Kind, Object};
use crate::git::refs::{self, is_hex_oid, list_refs, resolve_ref, RefInfo, RefView};
use crate::git::tree::{self, parse_tree, EntryView, TreeEntry};
use crate::repo::{FilesView, Repo};
use crate::text::{
    self, contains_str, decode_strict, same, split_at_char, split_lines, starts_with, strip_prefix,
    to_lower, trimmed, Class,
};

verus! {

/// The description of a repository: the first line of its file, unless that is
/// the text that Git puts there.
pub open spec fn description_of(files: FilesView) -> Seq<char> {
    match files.description {
        None => Seq::empty(),
        Some(t) => {
            let lines = text::lines(t);
            if lines.len() == 0 || text::has_prefix(lines[0], "Unnamed repository"@) {
                Seq::empty()
            } else {
                lines[0]
            }
        },
    }
}

/// Read the repository description when present.
pub fn description(repo: &Repo) -> (r: String)
    ensures
        r@ == description_of(repo@.files),
{
    match &repo.files().description {
        None => String::new(),
        Some(t) => {
            let lines = split_lines(t.as_str());
            assert(text::views(lines@).len() == lines@.len());
            if lines.len() == 0 {
                return String::new();
            }
            assert(text::views(lines@)[0] == lines@[0]@);
            if starts_with(lines[0].as_str(), "Unnamed repository") {
                String::new()
            } else {
                lines[0].as_str().to_owned()
            }
        },
    }
}

/// Read the raw HEAD file.
pub fn head_bytes(repo: &Repo) -> (r: Option<Vec<u8>>)
    ensures
        (match r {
            Some(b) => Some(b@),
            None => None,
        }) == repo@.files.head,
{
    match &repo.files().head {
        Some(b) => Some(slice_to_vec(b.as_slice())),
        None => None,
    }
}

/// Return refs in deterministic name order.
pub fn refs(repo: &Repo) -> (r: Vec<RefInfo>)
    ensures
        refs::sorted(refs::ref_views(r@)),
        refs::ref_map(refs::ref_views(r@)) == refs::all_refs(repo@.files),
        refs::ref_views(r@) == refs::listing(refs::all_refs(repo@.files)),
{
    list_refs(repo.files())
}

/// The refs in the list that are branches.
pub open spec fn branches_in(list: Seq<RefView>) -> Seq<RefView>
    decreases list.len(),
{
    if list.len() == 0 {
        Seq::empty()
    } else if text::has_prefix(list.last().name, "refs/heads/"@) {
        branches_in(list.drop_last()).push(list.last())
    } else {
        branches_in(list.drop_last())
    }
}

/// Return branch refs only.
pub fn branches(repo: &Repo) -> (r: Vec<RefInfo>)
    ensures
        refs::ref_views(r@) == branches_in(refs::listing(refs::all_refs(repo@.files))),
{
    let list = refs(repo);
    let ghost all = refs::ref_views(list@);
    let mut out: Vec<RefInfo> = Vec::new();
    let mut i: usize = 0;
    assert(refs::ref_views(out@) =~= branches_in(all.take(0)));
    while i < list.len()
        invariant
            all == refs::ref_views(list@),
            i <= list.len(),
            refs::ref_views(out@) == branches_in(all.take(i as int)),
        decreases list.len() - i,
    {
        proof {
            assert(all.take(i + 1).drop_last() =~= all.take(i as int));
            assert(all.take(i + 1).last() == list@[i as int]@);
        }
        if starts_with(list[i].name.as_str(), "refs/heads/") {
            let ghost before = out@;
            let item = RefInfo {
                name: list[i].name.as_str().to_owned(),
                oid: list[i].oid.as_str().to_owned(),
            };
            out.push(item);
            assert(refs::ref_views(out@) =~= refs::ref_views(before).push(list@[i as int]@));
        }
        i = i + 1;
    }
    assert(all.take(i as int) =~= all);
    out
}

/// One line for each ref: the object id, a tab and the name.
pub open spec fn info_lines(list: Seq<RefView>) -> Seq<u8>
    decreases list.len(),
{
    if list.len() == 0 {
        Seq::empty()
    } else {
        info_lines(list.drop_last()) + encode_utf8(list.last().oid) + seq![0x09u8] + encode_utf8(
            list.last().name,
        ) + seq![0x0au8]
    }
}

/// Return refs formatted for dumb HTTP `info/refs`.
pub fn info_refs(repo: &Repo) -> (r: Vec<u8>)
    ensures
        r@ == info_lines(refs::listing(refs::all_refs(repo@.files))),
{
    let list = refs(repo);
    let ghost all = refs::ref_views(list@);
    let mut out: Vec<u8> = Vec::new();
    let mut i: usize = 0;
    assert(out@ =~= info_lines(all.take(0)));
    while i < list.len()
        invariant
            all == refs::ref_views(list@),
            i <= list.len(),
            out@ == info_lines(all.take(i as int)),
        decreases list.len() - i,
    {
        proof {
            assert(all.take(i + 1).drop_last() =~= all.take(i as int));
            assert(all.take(i + 1).last() == list@[i as int]@);
        }
        append_bytes(&mut out, list[i].oid.as_str().as_bytes());
        let ghost line = out@;
        out.push(0x09);
        assert(out@ =~= line + seq![0x09u8]);
        append_bytes(&mut out, list[i].name.as_str().as_bytes());
        let ghost line = out@;
        out.push(0x0a);
        assert(out@ =~= line + seq![0x0au8]);
        i = i + 1;
    }
    assert(all.take(i as int) =~= all);
    out
}

/// The object id that HEAD stands for, in small letters: the target of the ref
/// that it names, or the id that it holds.
pub open spec fn head_target(files: FilesView) -> Option<Seq<char>> {
    match files.head {
        None => None,
        Some(b) => if !valid_utf8(b) {
            None
        } else {
            let head = decode_utf8(b);
            if text::has_prefix(head, "ref: "@) {
                refs::ref_target(files, text::trim(head.skip("ref: "@.len() as int), Class::Space))
            } else {
                let oid = text::trim(head, Class::Space);
                if refs::hex_oid(oid) {
                    Some(text::lower(oid))
                } else {
                    None
                }
            }
        },
    }
}

/// The object id that a revision stands for, in small letters: an id, HEAD, a
/// ref or a branch.
pub open spec fn rev_target(files: FilesView, rev: Seq<char>) -> Option<Seq<char>> {
    if refs::hex_oid(rev) {
        Some(text::lower(rev))
    } else if rev == "HEAD"@ {
        head_target(files)
    } else {
        match refs::ref_target(files, rev) {
            Some(oid) => Some(oid),
            None => refs::ref_target(files, "refs/heads/"@ + rev),
        }
    }
}

/// Find the object id that HEAD stands for.
fn resolve_head(repo: &Repo) -> (r: Option<String>)
    ensures
        text::opt_view(r) == head_target(repo@.files),
{
    let head: String = match &repo.files().head {
        None => return None,
        Some(b) => match decode_strict(b.as_slice()) {
            Some(s) => s,
            None => return None,
        },
    };
    match strip_prefix(head.as_str(), "ref: ") {
        Some(sym) => {
            let name = trimmed(sym.as_str(), Class::Space);
            resolve_ref(repo.files(), name.as_str())
        },
        None => {
            let oid = trimmed(head.as_str(), Class::Space);
            if is_hex_oid(oid.as_str()) {
                Some(to_lower(oid.as_str()))
            } else {
                None
            }
        },
    }
}

/// Find the object id that a revision stands for.
pub fn resolve_rev(repo: &Repo, rev: &str) -> (r: Option<String>)
    ensures
        text::opt_view(r) == rev_target(repo@.files, rev@),
{
    if is_hex_oid(rev) {
        return Some(to_lower(rev));
    }
    if same(rev, "HEAD") {
        return resolve_head(repo);
    }
    match resolve_ref(repo.files(), rev) {
        Some(oid) => Some(oid),
        None => {
            let mut name: String = "refs/heads/".to_owned();
            name.append(rev);
            resolve_ref(repo.files(), name.as_str())
        },
    }
}

/// The commit at a revision.
pub open spec fn commit_at(files: FilesView, rev: Seq<char>) -> Option<CommitView> {
    match rev_target(files, rev) {
        None => None,
        Some(oid) => match object::object(files, oid) {
            Err(_) => None,
            Ok(o) => if o.kind == Kind::Commit {
                Some(commit::commit_of(oid, text::lossy(o.data)))
            } else {
                None
            },
        },
    }
}

/// What an optional commit holds.
pub open spec fn opt_commit(c: Option<CommitSummary>) -> Option<CommitView> {
    match c {
        Some(x) => Some(x@),
        None => None,
    }
}

/// Return a decoded commit by revision.
pub fn commit(repo: &Repo, rev: &str) -> (r: Option<CommitSummary>)
    ensures
        opt_commit(r) == commit_at(repo@.files, rev@),
{
    let oid: String = match resolve_rev(repo, rev) {
        Some(oid) => oid,
        None => return None,
    };
    match read_object(repo.files(), oid.as_str()) {
        Ok(o) => match o.kind {
            Kind::Commit => Some(parse_commit(oid, o.data.as_slice())),
            _ => None,
        },
        Err(_) => None,
    }
}

/// The commits on the way from `rev` along first parents: at most `limit`, up
/// to one that cannot be read, has no parent, or was met before.
pub open spec fn first_parents(
    files: FilesView,
    rev: Seq<char>,
    seen: Seq<Seq<char>>,
    limit: nat,
) -> Seq<CommitView>
    decreases limit,
{
    if limit == 0 || seen.contains(rev) {
        Seq::empty()
    } else {
        match commit_at(files, rev) {
            None => Seq::empty(),
            Some(c) => if c.parents.len() == 0 {
                seq![c]
            } else {
                seq![c] + first_parents(files, c.parents[0], seen.push(rev), (limit - 1) as nat)
            },
        }
    }
}

/// The commits on the way from HEAD along first parents.
pub open spec fn history(files: FilesView, limit: nat) -> Seq<CommitView> {
    match rev_target(files, "HEAD"@) {
        None => Seq::empty(),
        Some(oid) => first_parents(files, oid, Seq::empty(), limit),
    }
}

/// Tests whether `s` is one of the strings.
fn is_among(list: &Vec<String>, s: &str) -> (r: bool)
    ensures
        r == text::views(list@).contains(s@),
{
    let mut i: usize = 0;
    while i < list.len()
        invariant
            i <= list.len(),
            forall|j: int| 0 <= j < i ==> (#[trigger] list@[j])@ != s@,
        decreases list.len() - i,
    {
        if same(list[i].as_str(), s) {
            assert(text::views(list@)[i as int] == s@);
            return true;
        }
        i = i + 1;
    }
    assert forall|j: int| 0 <= j < text::views(list@).len() implies text::views(list@)[j] != s@ by {
        assert(list@[j]@ != s@);
    }
    false
}

/// Return recent commits by walking the first-parent chain from HEAD.
pub fn recent_commits(repo: &Repo, limit: usize) -> (r: Vec<CommitSummary>)
    ensures
        commit::commit_views(r@) == history(repo@.files, limit as nat),
{
    let mut out: Vec<CommitSummary> = Vec::new();
    assert(commit::commit_views(out@) =~= Seq::empty());
    let mut rev: String = match resolve_rev(repo, "HEAD") {
        Some(oid) => oid,
        None => return out,
    };
    let ghost files = repo@.files;
    let ghost first = rev@;
    let mut seen: Vec<String> = Vec::new();
    let mut left: usize = limit;
    assert(text::views(seen@) =~= Seq::empty());
    assert(first_parents(files, first, Seq::empty(), limit as nat) =~= commit::commit_views(out@)
        + first_parents(files, rev@, text::views(seen@), left as nat));
    while left > 0
        invariant
            files == repo@.files,
            first_parents(files, first, Seq::empty(), limit as nat) == commit::commit_views(out@)
                + first_parents(files, rev@, text::views(seen@), left as nat),
            history(files, limit as nat) == first_parents(
                files,
                first,
                Seq::empty(),
                limit as nat,
            ),
        decreases left,
    {
        if is_among(&seen, rev.as_str()) {
            assert(commit::commit_views(out@) + Seq::<CommitView>::empty() =~= commit::commit_views(
                out@,
            ));
            return out;
        }
        let found: CommitSummary = match commit(repo, rev.as_str()) {
            Some(c) => c,
            None => {
                assert(commit::commit_views(out@) + Seq::<CommitView>::empty()
                    =~= commit::commit_views(out@));
                return out;
            },
        };
        let ghost before = out@;
        let ghost c = found@;
        assert(found.parents@.len() == c.parents.len());
        if found.parents.len() == 0 {
            out.push(found);
            assert(commit::commit_views(out@) =~= commit::commit_views(before) + seq![c]);
            return out;
        }
        assert(c.parents[0] == found.parents@[0]@);
        let next: String = found.parents[0].as_str().to_owned();
        out.push(found);
        let ghost seen_before = seen@;
        let ghost last = rev@;
        seen.push(rev);
        rev = next;
        proof {
            assert(commit::commit_views(out@) =~= commit::commit_views(before).push(c));
            assert(text::views(seen@) =~= text::views(seen_before).push(last));
            let rest = first_parents(files, rev@, text::views(seen@), (left - 1) as nat);
            assert(commit::commit_views(before) + (seq![c] + rest) =~= commit::commit_views(out@)
                + rest);
        }
        left = left - 1;
    }
    assert(commit::commit_views(out@) + Seq::<CommitView>::empty() =~= commit::commit_views(out@));
    out
}

/// The entries of the tree `oid`.
pub open spec fn tree_at(files: FilesView, oid: Seq<char>) -> Result<
    Seq<EntryView>,
    ObjectError,
> {
    match object::object(files, oid) {
        Err(e) => Err(e),
        Ok(o) => if o.kind != Kind::Tree {
            Err(ObjectError::NotATree)
        } else {
            tree::entries_from(o.data, 0)
        },
    }
}

/// The first entry of that name.
pub open spec fn entry_named(entries: Seq<EntryView>, name: Seq<char>) -> Option<EntryView>
    decreases entries.len(),
{
    if entries.len() == 0 {
        None
    } else if entries[0].name == name {
        Some(entries[0])
    } else {
        entry_named(entries.drop_first(), name)
    }
}

/// The entry that is reached from the tree `root` along the names in `parts`.
pub open spec fn entry_along(
    files: FilesView,
    root: Seq<char>,
    parts: Seq<Seq<char>>,
) -> Option<EntryView>
    decreases parts.len(),
{
    if parts.len() == 0 {
        None
    } else {
        match tree_at(files, root) {
            Err(_) => None,
            Ok(entries) => match entry_named(entries, parts[0]) {
                None => None,
                Some(e) => if parts.len() == 1 {
                    Some(e)
                } else if e.kind != "tree"@ {
                    None
                } else {
                    entry_along(files, e.oid, parts.drop_first())
                },
            },
        }
    }
}

/// The entry at `path` below the tree `root`.
pub open spec fn entry_at_path(files: FilesView, root: Seq<char>, path: Seq<char>) -> Option<
    EntryView,
> {
    entry_along(files, root, text::split(path, '/'))
}

/// The id of the tree at `path` below the tree `root`; the root itself for the
/// empty path.
pub open spec fn tree_at_path(files: FilesView, root: Seq<char>, path: Seq<char>) -> Option<
    Seq<char>,
> {
    if path.len() == 0 {
        Some(root)
    } else {
        match entry_at_path(files, root, path) {
            None => None,
            Some(e) => if e.kind == "tree"@ {
                Some(e.oid)
            } else {
                None
            },
        }
    }
}

/// Read a tree.
pub fn read_tree(repo: &Repo, oid: &str) -> (r: Result<Vec<TreeEntry>, ObjectError>)
    ensures
        tree::tree_outcome(r) == tree_at(repo@.files, oid@),
{
    let o: Object = read_object(repo.files(), oid)?;
    match o.kind {
        Kind::Tree => parse_tree(o.data.as_slice()),
        _ => Err(ObjectError::NotATree),
    }
}

/// Take the first entry of that name.
fn take_entry(list: Vec<TreeEntry>, name: &str) -> (r: Option<TreeEntry>)
    ensures
        (match r {
            Some(e) => Some(e@),
            None => None,
        }) == entry_named(tree::entry_views(list@), name@),
{
    let ghost all = tree::entry_views(list@);
    let mut entries = list;
    let mut i: usize = 0;
    assert(all.skip(0) =~= all);
    while i < entries.len()
        invariant
            all == tree::entry_views(list@),
            all == tree::entry_views(entries@),
            i <= entries.len(),
            entry_named(all.skip(i as int), name@) == entry_named(all, name@),
        decreases entries.len() - i,
    {
        proof {
            assert(all.skip(i as int)[0] == entries@[i as int]@);
            assert(all.skip(i as int).drop_first() =~= all.skip(i + 1));
        }
        if same(entries[i].name.as_str(), name) {
            let e: TreeEntry = entries.remove(i);
            assert(e@ == all[i as int]);
            return Some(e);
        }
        i = i + 1;
    }
    None
}

/// Find the entry at `path` below the tree `root`.
pub fn lookup_entry(repo: &Repo, root: &str, path: &str) -> (r: Option<TreeEntry>)
    ensures
        (match r {
            Some(e) => Some(e@),
            None => None,
        }) == entry_at_path(repo@.files, root@, path@),
{
    let parts = split_at_char(path, '/');
    let ghost all = text::views(parts@);
    let mut current: String = root.to_owned();
    let mut i: usize = 0;
    assert(all.skip(0) =~= all);
    while i < parts.len()
        invariant
            all == text::views(parts@),
            all == text::split(path@, '/'),
            i <= parts.len(),
            entry_along(repo@.files, current@, all.skip(i as int)) == entry_along(
                repo@.files,
                root@,
                all,
            ),
        decreases parts.len() - i,
    {
        proof {
            assert(all.skip(i as int)[0] == parts@[i as int]@);
            assert(all.skip(i as int).drop_first() =~= all.skip(i + 1));
        }
        let entries: Vec<TreeEntry> = match read_tree(repo, current.as_str()) {
            Ok(v) => v,
            Err(_) => return None,
        };
        let entry: TreeEntry = match take_entry(entries, parts[i].as_str()) {
            Some(e) => e,
            None => return None,
        };
        if i + 1 == parts.len() {
            return Some(entry);
        }
        if !same(entry.kind.as_str(), "tree") {
            return None;
        }
        current = entry.oid;
        i = i + 1;
    }
    None
}

/// Find the tree at `path` below the tree `root`.
pub fn lookup_tree_path(repo: &Repo, root: &str, path: &str) -> (r: Option<String>)
    ensures
        text::opt_view(r) == tree_at_path(repo@.files, root@, path@),
{
    if path.is_empty() {
        return Some(root.to_owned());
    }
    match lookup_entry(repo, root, path) {
        Some(entry) => if same(entry.kind.as_str(), "tree") {
            Some(entry.oid)
        } else {
            None
        },
        None => None,
    }
}

/// The entries of the directory `path` at a revision; none when there is no
/// such directory.
pub open spec fn directory(files: FilesView, rev: Seq<char>, path: Seq<char>) -> Seq<EntryView> {
    match commit_at(files, rev) {
        None => Seq::empty(),
        Some(c) => match tree_at_path(files, c.tree, path) {
            None => Seq::empty(),
            Some(oid) => match tree_at(files, oid) {
                Err(_) => Seq::empty(),
                Ok(entries) => entries,
            },
        },
    }
}

/// Return entries for `path` at `rev`.
pub fn tree_entries(repo: &Repo, rev: &str, path: &str) -> (r: Vec<TreeEntry>)
    ensures
        tree::entry_views(r@) == directory(repo@.files, rev@, path@),
{
    let none: Vec<TreeEntry> = Vec::new();
    assert(tree::entry_views(none@) =~= Seq::empty());
    let found: CommitSummary = match commit(repo, rev) {
        Some(c) => c,
        None => return none,
    };
    let tree_oid: String = match lookup_tree_path(repo, found.tree.as_str(), path) {
        Some(oid) => oid,
        None => return none,
    };
    match read_tree(repo, tree_oid.as_str()) {
        Ok(v) => v,
        Err(_) => none,
    }
}

/// The contents of the file `path` at a revision, when it is a blob of at most
/// `max_bytes`.
pub open spec fn file_contents(
    files: FilesView,
    rev: Seq<char>,
    path: Seq<char>,
    max_bytes: nat,
) -> Option<Seq<u8>> {
    match commit_at(files, rev) {
        None => None,
        Some(c) => match entry_at_path(files, c.tree, path) {
            None => None,
            Some(e) => if e.kind != "blob"@ || encode_utf8(e.oid).len() != 40 {
                None
            } else {
                match object::object(files, e.oid) {
                    Err(_) => None,
                    Ok(o) => if o.kind != Kind::Blob || o.data.len() > max_bytes {
                        None
                    } else {
                        Some(o.data)
                    },
                }
            },
        },
    }
}

/// Return blob bytes for `path` at `rev`.
pub fn blob(repo: &Repo, rev: &str, path: &str, max_bytes: usize) -> (r: Option<Vec<u8>>)
    ensures
        (match r {
            Some(b) => Some(b@),
            None => None,
        }) == file_contents(repo@.files, rev@, path@, max_bytes as nat),
{
    let found: CommitSummary = match commit(repo, rev) {
        Some(c) => c,
        None => return None,
    };
    let entry: TreeEntry = match lookup_entry(repo, found.tree.as_str(), path) {
        Some(e) => e,
        None => return None,
    };
    if !same(entry.kind.as_str(), "blob") || entry.oid.as_str().as_bytes().len() != 40 {
        return None;
    }
    match read_object(repo.files(), entry.oid.as_str()) {
        Err(_) => None,
        Ok(o) => match o.kind {
            Kind::Blob => if o.data.len() > max_bytes {
                None
            } else {
                Some(o.data)
            },
            _ => None,
        },
    }
}

/// The commits whose message holds `query`, whatever the case of its letters.
pub open spec fn matching(list: Seq<CommitView>, query: Seq<char>) -> Seq<CommitView>
    decreases list.len(),
{
    if list.len() == 0 {
        Seq::empty()
    } else if text::occurs(text::lower(list.last().message), text::lower(query)) {
        matching(list.drop_last(), query).push(list.last())
    } else {
        matching(list.drop_last(), query)
    }
}

/// The first `limit` items of the list, or all of them.
pub open spec fn at_most<T>(list: Seq<T>, limit: nat) -> Seq<T> {
    if list.len() <= limit {
        list
    } else {
        list.take(limit as int)
    }
}

/// Search recent commits by subject and message.
pub fn search_commits(repo: &Repo, query: &str, limit: usize) -> (r: Vec<CommitSummary>)
    requires
        limit * 4 <= usize::MAX,
    ensures
        commit::commit_views(r@) == at_most(
            matching(history(repo@.files, (limit * 4) as nat), query@),
            limit as nat,
        ),
{
    let q = to_lower(query);
    let mut list = recent_commits(repo, limit * 4);
    let ghost all = commit::commit_views(list@);
    let ghost mut done: int = 0;
    let mut kept: usize = 0;
    assert(commit::commit_views(list@) =~= matching(all.take(0), query@) + all.skip(0));
    while kept < list.len()
        invariant
            q@ == text::lower(query@),
            0 <= done <= all.len(),
            kept <= list.len(),
            kept == matching(all.take(done), query@).len(),
            commit::commit_views(list@) == matching(all.take(done), query@) + all.skip(done),
        decreases list.len() - kept,
    {
        let ghost before = commit::commit_views(list@);
        proof {
            assert(before.len() == list@.len());
            assert(before[kept as int] == list@[kept as int]@);
            assert(before[kept as int] == all[done]);
            assert(all.take(done + 1).drop_last() =~= all.take(done));
            assert(all.take(done + 1).last() == all[done]);
        }
        let message = to_lower(list[kept].message.as_str());
        if contains_str(message.as_str(), q.as_str()) {
            kept = kept + 1;
        } else {
            list.remove(kept);
            assert(commit::commit_views(list@) =~= before.remove(kept as int));
        }
        proof {
            done = done + 1;
            assert(commit::commit_views(list@) =~= matching(all.take(done), query@) + all.skip(
                done,
            ));
        }
    }
    proof {
        assert(commit::commit_views(list@).len() == list@.len());
        assert(done == all.len());
        assert(all.take(done) =~= all);
        assert(commit::commit_views(list@) =~= matching(all, query@));
    }
    let ghost full = list@;
    if list.len() > limit {
        list.truncate(limit);
    }
    assert(commit::commit_views(list@) =~= at_most(commit::commit_views(full), limit as nat));
    list
}

}
