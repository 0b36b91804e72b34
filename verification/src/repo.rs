//! Repositories and what the reader looks at in them.

use vstd::prelude::*;
use crate::config::Config;
use crate::security::{self, safe_repo_name};
use crate::sorted::Named;
use crate::text;

verus! {

/// A file of a repository: its name and its contents, or `None` when it cannot
/// be read.
#[derive(Clone, Debug)]
pub struct StoredFile {
    /// The file's name.
    pub name: String,
    /// The file's contents.
    pub data: Option<Vec<u8>>,
}

/// What a stored file holds.
pub struct FileView {
    /// The file's name.
    pub name: Seq<char>,
    /// The file's contents.
    pub data: Option<Seq<u8>>,
}

impl View for StoredFile {
    type V = FileView;

    open spec fn view(&self) -> FileView {
        FileView {
            name: self.name@,
            data: match self.data {
                Some(d) => Some(d@),
                None => None,
            },
        }
    }
}

/// What each stored file holds.
pub open spec fn file_views(v: Seq<StoredFile>) -> Seq<FileView> {
    v.map_values(|f: StoredFile| f@)
}

/// A file below the directory `refs`.
#[derive(Clone, Debug)]
pub struct RefFile {
    /// The names on the way from `refs` to the file, its own name last.
    pub path: Vec<String>,
    /// The file's text.
    pub text: String,
}

/// What a ref file holds.
pub struct RefFileView {
    /// The names on the way from `refs` to the file.
    pub path: Seq<Seq<char>>,
    /// The file's text.
    pub text: Seq<char>,
}

impl View for RefFile {
    type V = RefFileView;

    open spec fn view(&self) -> RefFileView {
        RefFileView { path: text::views(self.path@), text: self.text@ }
    }
}

/// What each ref file holds.
pub open spec fn ref_file_views(v: Seq<RefFile>) -> Seq<RefFileView> {
    v.map_values(|f: RefFile| f@)
}

/// The files in a Git directory that the reader looks at.
#[derive(Clone, Debug)]
pub struct RepoFiles {
    /// The text of `description`.
    pub description: Option<String>,
    /// The contents of `HEAD`.
    pub head: Option<Vec<u8>>,
    /// The files below `refs`, at any depth.
    pub refs: Vec<RefFile>,
    /// The text of `packed-refs`.
    pub packed_refs: Option<String>,
    /// The loose objects: the name is the object id, that is the name of the
    /// file's directory followed by the file's own.
    pub loose: Vec<StoredFile>,
    /// The files in `objects/pack`, in the order in which the directory lists
    /// them.
    pub packs: Vec<StoredFile>,
}

/// What the files in a Git directory hold.
pub struct FilesView {
    /// The text of `description`.
    pub description: Option<Seq<char>>,
    /// The contents of `HEAD`.
    pub head: Option<Seq<u8>>,
    /// The files below `refs`.
    pub refs: Seq<RefFileView>,
    /// The text of `packed-refs`.
    pub packed_refs: Option<Seq<char>>,
    /// The loose objects.
    pub loose: Seq<FileView>,
    /// The files in `objects/pack`.
    pub packs: Seq<FileView>,
}

impl View for RepoFiles {
    type V = FilesView;

    open spec fn view(&self) -> FilesView {
        FilesView {
            description: match self.description {
                Some(s) => Some(s@),
                None => None,
            },
            head: match self.head {
                Some(b) => Some(b@),
                None => None,
            },
            refs: ref_file_views(self.refs@),
            packed_refs: match self.packed_refs {
                Some(s) => Some(s@),
                None => None,
            },
            loose: file_views(self.loose@),
            packs: file_views(self.packs@),
        }
    }
}

/// The contents of the first file with that name, if it can be read.
pub open spec fn stored(files: Seq<FileView>, name: Seq<char>) -> Option<Seq<u8>>
    decreases files.len(),
{
    if files.len() == 0 {
        None
    } else if files[0].name == name {
        files[0].data
    } else {
        stored(files.drop_first(), name)
    }
}

/// Find a file by its name.
pub fn stored_file<'a>(files: &'a Vec<StoredFile>, name: &str) -> (r: Option<&'a Vec<u8>>)
    ensures
        r is Some <==> stored(file_views(files@), name@) is Some,
        r matches Some(d) ==> stored(file_views(files@), name@) == Some(d@),
{
    let ghost all = file_views(files@);
    let mut i: usize = 0;
    assert(all.skip(0) =~= all);
    while i < files.len()
        invariant
            all == file_views(files@),
            i <= files.len(),
            stored(all.skip(i as int), name@) == stored(all, name@),
        decreases files.len() - i,
    {
        assert(all.skip(i as int)[0] == files@[i as int]@);
        assert(all.skip(i as int).drop_first() =~= all.skip(i + 1));
        if text::same(files[i].name.as_str(), name) {
            return match &files[i].data {
                Some(d) => Some(d),
                None => None,
            };
        }
        i = i + 1;
    }
    None
}

/// A repository that is served.
#[derive(Clone, Debug)]
pub struct Repo {
    name: String,
    path: Vec<String>,
    bare: bool,
    files: RepoFiles,
}

/// What a repository holds.
pub struct RepoView {
    /// Repository display/URL name.
    pub name: Seq<char>,
    /// The components of the canonical path.
    pub path: Seq<Seq<char>>,
    /// True when the repository is bare.
    pub bare: bool,
    /// The files in its Git directory.
    pub files: FilesView,
}

impl View for Repo {
    type V = RepoView;

    closed spec fn view(&self) -> RepoView {
        RepoView {
            name: self.name@,
            path: text::views(self.path@),
            bare: self.bare,
            files: self.files@,
        }
    }
}

/// The components of a repository's Git directory.
pub open spec fn git_dir_of(repo: RepoView) -> Seq<Seq<char>> {
    if repo.bare {
        repo.path
    } else {
        repo.path.push(".git"@)
    }
}

impl Repo {
    /// A repository with the given name, path and files.
    pub fn new(name: String, path: Vec<String>, bare: bool, files: RepoFiles) -> (r: Repo)
        ensures
            r@ == (RepoView { name: name@, path: text::views(path@), bare, files: files@ }),
    {
        Repo { name, path, bare, files }
    }

    /// Repository display/URL name.
    pub fn name(&self) -> (r: &str)
        ensures
            r@ == self@.name,
    {
        self.name.as_str()
    }

    /// Canonical repository working-tree or bare Git dir path, by its components.
    pub fn path(&self) -> (r: &[String])
        ensures
            text::views(r@) == self@.path,
    {
        self.path.as_slice()
    }

    /// True when this repository is bare.
    pub fn is_bare(&self) -> (r: bool)
        ensures
            r == self@.bare,
    {
        self.bare
    }

    /// Canonical Git directory path, by its components.
    pub fn git_dir(&self) -> (r: Vec<String>)
        ensures
            text::views(r@) == git_dir_of(self@),
    {
        let mut out = text::copy_strings(self.path.as_slice());
        if !self.bare {
            let ghost before = out@;
            out.push(".git".to_owned());
            assert(text::views(out@) =~= text::views(before).push(".git"@));
        }
        out
    }

    /// The files in the Git directory.
    pub fn files(&self) -> (r: &RepoFiles)
        ensures
            r@ == self@.files,
    {
        &self.files
    }
}

// ---------------------------------------------------------------------------
// Discovery

/// What the file system says of a directory that may be a repository.
#[derive(Clone, Debug)]
pub struct Location {
    /// The path itself is a symbolic link.
    pub symlink: bool,
    /// The path itself is a directory.
    pub directory: bool,
    /// The components of the path with its links resolved, if that succeeds.
    pub canonical: Option<Vec<String>>,
    /// There is a directory `.git` in it, links followed.
    pub has_git: bool,
    /// That `.git` is a symbolic link, or nothing can be said of it.
    pub git_symlink: bool,
    /// There is a file `HEAD` in it.
    pub has_head: bool,
    /// There is a directory `objects` in it.
    pub has_objects: bool,
}

/// What a location holds.
pub struct LocationView {
    /// The path itself is a symbolic link.
    pub symlink: bool,
    /// The path itself is a directory.
    pub directory: bool,
    /// The components of the resolved path.
    pub canonical: Option<Seq<Seq<char>>>,
    /// There is a directory `.git` in it.
    pub has_git: bool,
    /// That `.git` is a symbolic link.
    pub git_symlink: bool,
    /// There is a file `HEAD` in it.
    pub has_head: bool,
    /// There is a directory `objects` in it.
    pub has_objects: bool,
}

impl View for Location {
    type V = LocationView;

    open spec fn view(&self) -> LocationView {
        LocationView {
            symlink: self.symlink,
            directory: self.directory,
            canonical: match self.canonical {
                Some(p) => Some(text::views(p@)),
                None => None,
            },
            has_git: self.has_git,
            git_symlink: self.git_symlink,
            has_head: self.has_head,
            has_objects: self.has_objects,
        }
    }
}

/// What an optional location holds.
pub open spec fn opt_location(l: Option<Location>) -> Option<LocationView> {
    match l {
        Some(x) => Some(x@),
        None => None,
    }
}

/// A path that may lead to a repository, and the files that its Git directory
/// would hold.
#[derive(Clone, Debug)]
pub struct Candidate {
    /// What the path leads to; `None` when it cannot be examined.
    pub location: Option<Location>,
    /// The files in the Git directory.
    pub files: RepoFiles,
}

/// What a candidate holds.
pub struct CandidateView {
    /// What the path leads to.
    pub location: Option<LocationView>,
    /// The files in the Git directory.
    pub files: FilesView,
}

impl View for Candidate {
    type V = CandidateView;

    open spec fn view(&self) -> CandidateView {
        CandidateView {
            location: opt_location(self.location),
            files: self.files@,
        }
    }
}

/// An entry of the repository root.
#[derive(Clone, Debug)]
pub struct RootEntry {
    /// The entry's name; `None` when it is no text.
    pub name: Option<String>,
    /// What it leads to.
    pub candidate: Candidate,
}

/// What an entry holds.
pub struct RootEntryView {
    /// The entry's name.
    pub name: Option<Seq<char>>,
    /// What it leads to.
    pub candidate: CandidateView,
}

impl View for RootEntry {
    type V = RootEntryView;

    open spec fn view(&self) -> RootEntryView {
        RootEntryView { name: text::opt_view(self.name), candidate: self.candidate@ }
    }
}

/// What each entry holds.
pub open spec fn root_entry_views(v: Seq<RootEntry>) -> Seq<RootEntryView> {
    v.map_values(|e: RootEntry| e@)
}

impl Named for Repo {
    open spec fn name_of(v: RepoView) -> Seq<char> {
        v.name
    }

    fn sort_name(&self) -> (r: &str) {
        self.name()
    }
}

/// What each repository holds.
pub open spec fn repo_views(v: Seq<Repo>) -> Seq<RepoView> {
    v.map_values(|r: Repo| r@)
}

/// True when `path` lies at or below `root`, component by component.
pub open spec fn within(root: Seq<Seq<char>>, path: Seq<Seq<char>>) -> bool {
    root.len() <= path.len() && path.take(root.len() as int) == root
}

/// Whether there is a repository at a location, and whether it is bare: a real
/// directory that lies within the root, and holds either a real `.git` or both
/// `HEAD` and `objects`.
pub open spec fn bare_at(root: Seq<Seq<char>>, location: Option<LocationView>) -> Option<bool> {
    match location {
        None => None,
        Some(l) => if l.symlink || !l.directory {
            None
        } else {
            match l.canonical {
                None => None,
                Some(path) => if !within(root, path) {
                    None
                } else if l.has_git && !l.git_symlink {
                    Some(false)
                } else if l.has_head && l.has_objects {
                    Some(true)
                } else {
                    None
                },
            }
        },
    }
}

/// The repository at a location.
pub open spec fn repo_at(
    root: Seq<Seq<char>>,
    name: Seq<char>,
    candidate: CandidateView,
) -> Option<RepoView> {
    match (bare_at(root, candidate.location), candidate.location) {
        (Some(bare), Some(l)) => match l.canonical {
            Some(path) => Some(RepoView { name, path, bare, files: candidate.files }),
            None => None,
        },
        _ => None,
    }
}

/// The Git directory of the repository at a location.
pub open spec fn git_dir_at(
    root: Seq<Seq<char>>,
    location: Option<LocationView>,
) -> Option<Seq<Seq<char>>> {
    match (bare_at(root, location), location) {
        (Some(bare), Some(l)) => match l.canonical {
            Some(path) => Some(
                if bare {
                    path
                } else {
                    path.push(".git"@)
                },
            ),
            None => None,
        },
        _ => None,
    }
}

/// The repository that a root entry is.
pub open spec fn entry_repo(root: Seq<Seq<char>>, e: RootEntryView) -> Option<RepoView> {
    match e.name {
        None => None,
        Some(name) => repo_at(root, name, e.candidate),
    }
}

/// The repositories among root entries.
pub open spec fn repos_in(root: Seq<Seq<char>>, entries: Seq<RootEntryView>) -> Seq<RepoView>
    decreases entries.len(),
{
    if entries.len() == 0 {
        Seq::empty()
    } else {
        let rest = repos_in(root, entries.drop_last());
        match entry_repo(root, entries.last()) {
            Some(r) => rest.push(r),
            None => rest,
        }
    }
}

/// The repository of that name, given what stands there in the root.
pub open spec fn repo_named(
    root: Seq<Seq<char>>,
    name: Seq<char>,
    candidate: CandidateView,
) -> Option<RepoView> {
    if security::repo_name_ok(name) {
        repo_at(root, name, candidate)
    } else {
        None
    }
}

/// Tests whether `path` lies at or below `root`.
pub fn lies_within(root: &[String], path: &[String]) -> (r: bool)
    ensures
        r == within(text::views(root@), text::views(path@)),
{
    let ghost a = text::views(root@);
    let ghost b = text::views(path@);
    if root.len() > path.len() {
        return false;
    }
    let mut i: usize = 0;
    while i < root.len()
        invariant
            a == text::views(root@),
            b == text::views(path@),
            i <= root.len() <= path.len(),
            forall|j: int| 0 <= j < i ==> a[j] == b[j],
        decreases root.len() - i,
    {
        assert(a[i as int] == root@[i as int]@);
        assert(b[i as int] == path@[i as int]@);
        if !text::same(root[i].as_str(), path[i].as_str()) {
            assert(b.take(a.len() as int)[i as int] == b[i as int]);
            return false;
        }
        i = i + 1;
    }
    assert(b.take(a.len() as int) =~= a);
    true
}

/// List repositories one level below the configured root, given the root's
/// entries, or `None` when it cannot be read.
pub fn list(config: &Config, entries: Option<Vec<RootEntry>>) -> (r: Vec<Repo>)
    ensures
        entries is None ==> r@.len() == 0,
        entries matches Some(v) ==> repo_views(r@) == repos_in(
            config@.repo_root,
            root_entry_views(v@),
        ),
{
    let mut repos: Vec<Repo> = Vec::new();
    let mut rest: Vec<RootEntry> = match entries {
        Some(v) => v,
        None => return repos,
    };
    let ghost all = root_entry_views(rest@);
    let ghost mut done: int = 0;
    let ghost root = config@.repo_root;
    assert(all.skip(0) =~= all);
    assert(repo_views(repos@) =~= repos_in(root, all.take(0)));
    while rest.len() > 0
        invariant
            0 <= done <= all.len(),
            root == config@.repo_root,
            root_entry_views(rest@) == all.skip(done),
            repo_views(repos@) == repos_in(root, all.take(done)),
        decreases rest@.len(),
    {
        let ghost left = rest@;
        let entry: RootEntry = rest.remove(0);
        let ghost next = all.take(done + 1);
        proof {
            assert(root_entry_views(left).len() == left.len());
            assert(all.skip(done).len() == all.len() - done);
            assert(all.skip(done)[0] == root_entry_views(left)[0]);
            assert(all[done] == entry@);
            assert(next.drop_last() =~= all.take(done));
            assert(next.last() == entry@);
            assert(root_entry_views(rest@) =~= root_entry_views(left).drop_first());
            assert(all.skip(done).drop_first() =~= all.skip(done + 1));
        }
        if let Some(name) = entry.name {
            if let Some(repo) = from_path(config, name, entry.candidate) {
                let ghost before = repos@;
                repos.push(repo);
                assert(repo_views(repos@) =~= repo_views(before).push(repo@));
            }
        }
        proof {
            done = done + 1;
        }
    }
    assert(all.take(done) =~= all);
    repos
}

/// Where to look for a repository of that name; nowhere when the name is not
/// safe.
pub fn find_path(config: &Config, name: &str) -> (r: Option<Vec<String>>)
    ensures
        r is Some <==> security::repo_name_ok(name@),
        r matches Some(p) ==> text::views(p@) == config@.repo_root.push(name@),
{
    if !safe_repo_name(name) {
        return None;
    }
    let mut out = text::copy_strings(config.repo_root());
    let ghost before = out@;
    out.push(name.to_owned());
    assert(text::views(out@) =~= text::views(before).push(name@));
    Some(out)
}

/// Find a repository by safe URL name, given what stands at that name in the
/// root.
pub fn find(config: &Config, name: &str, candidate: Candidate) -> (r: Option<Repo>)
    ensures
        r is Some <==> repo_named(config@.repo_root, name@, candidate@) is Some,
        r matches Some(repo) ==> repo_named(config@.repo_root, name@, candidate@) == Some(repo@),
{
    if !safe_repo_name(name) {
        return None;
    }
    from_path(config, name.to_owned(), candidate)
}

/// Judge whether there is a repository at a location, and whether it is bare.
fn judge(config: &Config, location: &Option<Location>) -> (r: Option<bool>)
    ensures
        r == bare_at(config@.repo_root, opt_location(*location)),
{
    let location: &Location = match location {
        Some(l) => l,
        None => return None,
    };
    if location.symlink || !location.directory {
        return None;
    }
    match &location.canonical {
        Some(path) => if !lies_within(config.repo_root(), path.as_slice()) {
            return None;
        },
        None => return None,
    }
    if location.has_git && !location.git_symlink {
        return Some(false);
    }
    if location.has_head && location.has_objects {
        return Some(true);
    }
    None
}

/// Where the files of the repository at a location are to be read; nowhere when
/// there is no repository.
pub fn files_path(config: &Config, location: &Option<Location>) -> (r: Option<Vec<String>>)
    ensures
        r is Some <==> git_dir_at(config@.repo_root, opt_location(*location)) is Some,
        r matches Some(p) ==> git_dir_at(config@.repo_root, opt_location(*location)) == Some(
            text::views(p@),
        ),
{
    match judge(config, location) {
        None => None,
        Some(bare) => match location {
            Some(l) => match &l.canonical {
                Some(path) => {
                    let mut out = text::copy_strings(path.as_slice());
                    if !bare {
                        let ghost before = out@;
                        out.push(".git".to_owned());
                        assert(text::views(out@) =~= text::views(before).push(".git"@));
                    }
                    Some(out)
                },
                None => None,
            },
            None => None,
        },
    }
}

/// Judge whether a location is a repository.
fn from_path(config: &Config, name: String, candidate: Candidate) -> (r: Option<Repo>)
    ensures
        r is Some <==> repo_at(config@.repo_root, name@, candidate@) is Some,
        r matches Some(repo) ==> repo_at(config@.repo_root, name@, candidate@) == Some(repo@),
{
    let bare: bool = match judge(config, &candidate.location) {
        Some(b) => b,
        None => return None,
    };
    match candidate.location {
        Some(location) => match location.canonical {
            Some(path) => Some(Repo::new(name, path, bare, candidate.files)),
            None => None,
        },
        None => None,
    }
}

}
