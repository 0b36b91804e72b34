//! What a request can reach.

use vstd::prelude::*;
use vstd::utf8::*;
use crate::app::route::{self, RouteView};
use crate::app::session::{self, FileRequestView, StepView};
use crate::app::{clone, log, objects, parts};
use crate::config::ConfigView;
use crate::http::{self, RequestView};
use crate::repo::{self, CandidateView, RepoView, RootEntryView};
use crate::security::{self, Alphabet};
use crate::text;

verus! {

/// A repository's name is one segment of a path, and names neither the directory
/// itself nor its parent.
pub proof fn law_repository_name_is_one_segment(name: Seq<char>)
    requires
        security::repo_name_ok(name),
    ensures
        text::split(name, '/') == seq![name],
        !security::is_dots(name),
{
    text::lemma_split_one(name, '/');
    if name == ".."@ {
        assert(name.subrange(0, ".."@.len() as int) =~= ".."@);
        assert(text::occurs_at(name, ".."@, 0));
    }
}

/// A safe path in a tree is relative and never leads to a parent directory.
pub proof fn law_git_path_stays_below(path: Seq<char>, i: int)
    requires
        security::git_path_ok(path),
        path.len() > 0,
        0 <= i < text::split(path, '/').len(),
    ensures
        path[0] != '/',
        !security::is_dots(text::split(path, '/')[i]),
{
    text::lemma_until(path, '/');
    if path[0] == '/' {
        text::lemma_until_is(path, '/', 0);
        assert(text::split(path, '/')[0] =~= path.take(0));
        assert(security::is_dots(text::split(path, '/')[0]));
    }
}

/// A safe revision is no option of a command, no range, and holds neither white
/// space nor control characters, colons or backslashes.
pub proof fn law_revision_is_plain(rev: Seq<char>)
    requires
        security::git_rev_ok(rev),
    ensures
        rev[0] != '-',
        !text::occurs(rev, ".."@),
        !rev.contains(' '),
        !rev.contains(':'),
        !rev.contains('\\'),
        !rev.contains('\0'),
        !security::has_control(rev),
{
    assert forall|i: int| 0 <= i < rev.len() implies !text::is_control(#[trigger] rev[i]) by {
        assert(security::belongs(Alphabet::Revision, rev[i]));
    }
    assert forall|i: int| 0 <= i < rev.len() implies rev[i] != ' ' && rev[i] != ':' && rev[i]
        != '\\' && rev[i] != '\0' by {
        assert(security::belongs(Alphabet::Revision, rev[i]));
    }
}

/// A safe host holds no control characters, slashes, spaces or quotes.
pub proof fn law_host_is_plain(host: Seq<char>)
    requires
        security::host_ok(host),
    ensures
        !security::has_control(host),
        !host.contains('/'),
        !host.contains(' '),
        !host.contains('"'),
        !host.contains('<'),
{
    assert forall|i: int| 0 <= i < host.len() implies !text::is_control(#[trigger] host[i])
        && host[i] != '/' && host[i] != ' ' && host[i] != '"' && host[i] != '<' by {
        assert(security::belongs(Alphabet::Host, host[i]));
    }
}

/// A path with a first part and more has that part, and a separator, in front.
proof fn lemma_split_prefix(s: Seq<char>, sep: char)
    requires
        text::split(s, sep).len() > 1,
    ensures
        ({
            let first = text::split(s, sep)[0];
            &&& first.len() < s.len()
            &&& s.take(first.len() as int) == first
            &&& s[first.len() as int] == sep
        }),
{
    text::lemma_until(s, sep);
    let i = text::until(s, sep) as int;
    assert(i < s.len());
    assert(text::split(s, sep)[0] == s.take(i));
}

/// The files that a clone is given are those of objects and packs: their paths
/// lie below `objects`, three parts deep, and never lead to a parent directory.
pub proof fn law_clone_paths_lie_below_objects(path: Seq<char>, i: int)
    requires
        security::clone_path_ok(path),
        0 <= i < text::split(path, '/').len(),
    ensures
        text::has_prefix(path, "objects/"@),
        text::split(path, '/').len() == 3,
        !security::is_dots(text::split(path, '/')[i]),
{
    lemma_split_prefix(path, '/');
    reveal_strlit("objects");
    reveal_strlit("objects/");
    assert(path.take(8) =~= "objects/"@);
}

/// A repository that is found has a safe name, is a real directory that lies
/// within the root, and its Git directory is real too.
pub proof fn law_found_repository_lies_in_root(
    root: Seq<Seq<char>>,
    name: Seq<char>,
    candidate: CandidateView,
)
    requires
        repo::repo_named(root, name, candidate) is Some,
    ensures
        ({
            let found = repo::repo_named(root, name, candidate)->0;
            &&& security::repo_name_ok(name)
            &&& found.name == name
            &&& repo::within(root, found.path)
            &&& repo::within(root, repo::git_dir_of(found))
            &&& candidate.location matches Some(l) && !l.symlink && l.directory && l.canonical
                == Some(found.path) && (!found.bare ==> l.has_git && !l.git_symlink) && (found.bare
                ==> l.has_head && l.has_objects)
        }),
{
    let found = repo::repo_named(root, name, candidate)->0;
    if !found.bare {
        let dir = repo::git_dir_of(found);
        assert(dir.take(root.len() as int) =~= found.path.take(root.len() as int));
    }
}

/// A repository that the index lists lies within the root.
pub proof fn law_listed_repositories_lie_in_root(
    root: Seq<Seq<char>>,
    entries: Seq<RootEntryView>,
    i: int,
)
    requires
        0 <= i < repo::repos_in(root, entries).len(),
    ensures
        repo::within(root, repo::repos_in(root, entries)[i].path),
    decreases entries.len(),
{
    let rest = repo::repos_in(root, entries.drop_last());
    if i < rest.len() {
        law_listed_repositories_lie_in_root(root, entries.drop_last(), i);
    }
}

/// What the index lists under a safe name is what a request for that name finds.
pub proof fn law_listed_is_found(root: Seq<Seq<char>>, entry: RootEntryView)
    requires
        repo::entry_repo(root, entry) is Some,
        security::repo_name_ok(repo::entry_repo(root, entry)->0.name),
    ensures
        ({
            let listed = repo::entry_repo(root, entry)->0;
            repo::repo_named(root, listed.name, entry.candidate) == Some(listed)
        }),
{
}

/// The files of a repository are read in the Git directory that it is found with.
pub proof fn law_files_are_read_where_the_repository_is(
    root: Seq<Seq<char>>,
    name: Seq<char>,
    candidate: CandidateView,
)
    ensures
        repo::repo_at(root, name, candidate) is Some <==> repo::git_dir_at(
            root,
            candidate.location,
        ) is Some,
        repo::repo_at(root, name, candidate) matches Some(found) ==> repo::git_dir_at(
            root,
            candidate.location,
        ) == Some(repo::git_dir_of(found)),
{
}

/// A symbolic link is neither listed nor found.
pub proof fn law_links_are_no_repositories(
    root: Seq<Seq<char>>,
    name: Seq<char>,
    candidate: CandidateView,
)
    requires
        candidate.location matches Some(l) && l.symlink,
    ensures
        repo::repo_named(root, name, candidate) is None,
        repo::entry_repo(root, RootEntryView { name: Some(name), candidate }) is None,
{
}

/// A clone reads object and pack files only, and only such as lie, with all
/// links resolved, in the Git directory of a repository within the root, and are
/// no longer than the configured limit.
pub proof fn law_only_object_files_are_read(
    config: ConfigView,
    req: RequestView,
    candidate: CandidateView,
    canonical: Option<Seq<Seq<char>>>,
    length: Option<u64>,
    asked: FileRequestView,
    resolved: FileRequestView,
    read: FileRequestView,
)
    requires
        session::after_find(config, req, candidate) == StepView::Resolve(asked),
        session::after_resolve(asked, canonical) == StepView::Measure(resolved),
        session::after_measure(config, resolved, length) == StepView::Read(read),
    ensures
        security::clone_path_ok(read.clone_path),
        repo::within(config.repo_root, read.git_dir),
        repo::within(read.git_dir, read.path),
        repo::within(config.repo_root, read.path),
        length matches Some(n) && n <= config.max_clone_file_bytes,
        asked.path == read.git_dir + text::split(read.clone_path, '/'),
{
    match route::route_of(req.path) {
        RouteView::Repository { name, rest } => {
            law_found_repository_lies_in_root(config.repo_root, name, candidate);
            let root = config.repo_root;
            let dir = read.git_dir;
            assert(read.path.take(root.len() as int) =~= read.path.take(dir.len() as int).take(
                root.len() as int,
            ));
        },
        _ => {},
    }
}

/// Nothing is looked at for a request with an unsafe repository name: the answer
/// is sent at once.
pub proof fn law_unsafe_names_are_not_looked_up(config: ConfigView, req: RequestView)
    ensures
        session::routed(config, req) matches StepView::Find(r, path) ==> {
            &&& r == req
            &&& path.len() == config.repo_root.len() + 1
            &&& security::repo_name_ok(path.last())
            &&& path.drop_last() == config.repo_root
        },
{
    match route::route_of(req.path) {
        RouteView::Repository { name, rest } => {
            assert(config.repo_root.push(name).drop_last() =~= config.repo_root);
        },
        _ => {},
    }
}

/// A request with a method other than `GET` or `HEAD` is refused, whatever it
/// asks for, and nothing is looked at for it.
pub proof fn law_other_methods_are_refused(config: ConfigView, input: Seq<u8>)
    requires
        input.len() > 0,
        http::request_of(text::lossy(input)) matches Some(req) && req.method != "GET"@
            && req.method != "HEAD"@,
    ensures
        session::received(config, input) == StepView::Send(
            clone::plain_response(405, "Method Not Allowed"@, "method not allowed"@),
        ),
{
}

/// The clone command that is shown is one over HTTP or HTTPS, or none at all.
pub proof fn law_clone_command_is_over_http(
    public_base: Option<Seq<char>>,
    host: Option<Seq<char>>,
    name: Seq<char>,
)
    ensures
        ({
            let command = parts::clone_command(public_base, host, name);
            ||| command == parts::NO_CLONE_URL@
            ||| text::has_prefix(command, "git clone http://"@)
            ||| text::has_prefix(command, "git clone https://"@)
        }),
{
    reveal_strlit("git clone ");
    reveal_strlit("http://");
    reveal_strlit("https://");
    reveal_strlit("git clone http://");
    reveal_strlit("git clone https://");
    let command = parts::clone_command(public_base, host, name);
    match public_base {
        Some(base) => {
            let url = text::trim_end(base, text::Class::Only('/')) + parts::base_path(name);
            if security::http_url_ok(url) {
                if text::has_prefix(url, "http://"@) {
                    assert forall|i: int| 0 <= i < 7 implies url[i] == "http://"@[i] by {
                        assert(url.take(7)[i] == url[i]);
                    }
                    assert(command.take(17) =~= "git clone http://"@);
                } else {
                    assert forall|i: int| 0 <= i < 8 implies url[i] == "https://"@[i] by {
                        assert(url.take(8)[i] == url[i]);
                    }
                    assert(command.take(18) =~= "git clone https://"@);
                }
            }
        },
        None => match host {
            Some(h) => {
                if security::host_ok(h) {
                    assert(command.take(17) =~= "git clone http://"@);
                }
            },
            None => {},
        },
    }
}

/// The answer to a request with an unsafe revision, path or query says that it is
/// refused, and is the same whatever the repository holds.
pub proof fn law_refusal_tells_nothing(a: RepoView, b: RepoView, req: RequestView)
    ensures
        ({
            let rev = parts::query_or(req, "rev"@, "HEAD"@);
            let path = parts::query_or(req, "path"@, ""@);
            !security::git_rev_ok(rev) || !security::git_path_ok(path) ==> objects::tree_page(
                a,
                req,
            ) == objects::tree_page(b, req) && objects::tree_page(a, req) == parts::page_response(
                400,
                "Bad Request"@,
                "bad path"@,
                "<h1>bad path</h1>"@,
            ) && objects::blob_page(a, req) == objects::blob_page(b, req) && objects::blob_page(
                a,
                req,
            ) == parts::page_response(400, "Bad Request"@, "bad blob"@, "<h1>bad blob</h1>"@)
        }),
        ({
            let id = parts::query_or(req, "id"@, "HEAD"@);
            !security::git_rev_ok(id) ==> objects::commit_page(a, req) == objects::commit_page(
                b,
                req,
            ) && objects::diff_page(a, req) == objects::diff_page(b, req) && objects::commit_page(
                a,
                req,
            ) == parts::page_response(
                400,
                "Bad Request"@,
                "bad revision"@,
                "<h1>bad revision</h1>"@,
            )
        }),
        ({
            let q = log::search_query(req);
            security::has_control(q) || encode_utf8(q).len() > log::MAX_SEARCH_QUERY_LEN
                ==> log::search_page(a, req) == log::search_page(b, req) && log::search_page(a, req)
                == parts::page_response(
                400,
                "Bad Request"@,
                "bad search"@,
                "<h1>bad search query</h1>"@,
            )
        }),
{
}

}
