//! Serving: every request reaches the page or the file that it asks for.

use vstd::prelude::*;
use vstd::utf8::*;
use crate::app::route::{self, RouteView};
use crate::app::session::{self, SiteView, StepView};
use crate::app::{clone, log, objects, summary};
use crate::config::ConfigView;
use crate::git::{reader, refs};
use crate::html;
use crate::http::{self, RequestView};
use crate::laws::requests::{self, is_word, request_text};
use crate::laws::{admission, commits, links, lists, pages, urls};
use crate::repo::{self, CandidateView, LocationView, RepoView, RootEntryView};
use crate::text;

verus! {

// ---------------------------------------------------------------------------
// Repositories

/// True when a location is a repository: a real directory below the root that
/// holds a real `.git`, or is bare and holds `HEAD` and `objects` itself.
pub open spec fn is_repository(root: Seq<Seq<char>>, l: LocationView, bare: bool) -> bool {
    &&& l.directory && !l.symlink
    &&& exists|more: Seq<Seq<char>>| l.canonical == Some(#[trigger] (root + more))
    &&& bare == !(l.has_git && !l.git_symlink)
    &&& bare ==> l.has_head && l.has_objects
}

/// The repository of that name at a location.
pub open spec fn repository(
    name: Seq<char>,
    l: LocationView,
    bare: bool,
    candidate: CandidateView,
) -> RepoView {
    RepoView { name, path: l.canonical->0, bare, files: candidate.files }
}

/// Every location that is a repository is recognised as one.
pub proof fn law_repository_is_recognised(
    root: Seq<Seq<char>>,
    name: Seq<char>,
    candidate: CandidateView,
    l: LocationView,
    bare: bool,
)
    requires
        candidate.location == Some(l),
        is_repository(root, l, bare),
    ensures
        repo::repo_at(root, name, candidate) == Some(repository(name, l, bare, candidate)),
        repo::git_dir_at(root, Some(l)) == Some(
            if bare {
                l.canonical->0
            } else {
                l.canonical->0.push(".git"@)
            },
        ),
{
    let more = choose|more: Seq<Seq<char>>| l.canonical == Some(#[trigger] (root + more));
    assert((root + more).take(root.len() as int) =~= root);
}

/// No other location is.
pub proof fn law_other_locations_are_no_repositories(
    root: Seq<Seq<char>>,
    name: Seq<char>,
    candidate: CandidateView,
)
    requires
        candidate.location matches Some(l) ==> !is_repository(root, l, true) && !is_repository(
            root,
            l,
            false,
        ),
    ensures
        repo::repo_at(root, name, candidate) is None,
{
    match candidate.location {
        None => {},
        Some(l) => match l.canonical {
            None => {},
            Some(path) => {
                if repo::within(root, path) {
                    let more = path.skip(root.len() as int);
                    assert(path =~= root + more);
                    assert(l.canonical == Some(root + more));
                }
            },
        },
    }
}

/// Every repository among the entries of the root is listed, under its name.
pub proof fn law_every_repository_is_listed(
    root: Seq<Seq<char>>,
    entries: Seq<RootEntryView>,
    k: int,
    name: Seq<char>,
    l: LocationView,
    bare: bool,
)
    requires
        0 <= k < entries.len(),
        entries[k].name == Some(name),
        entries[k].candidate.location == Some(l),
        is_repository(root, l, bare),
    ensures
        repo::repos_in(root, entries).contains(repository(name, l, bare, entries[k].candidate)),
    decreases entries.len(),
{
    let all = repo::repos_in(root, entries);
    let rest = repo::repos_in(root, entries.drop_last());
    let wanted = repository(name, l, bare, entries[k].candidate);
    if k == entries.len() - 1 {
        law_repository_is_recognised(root, name, entries[k].candidate, l, bare);
        assert(all == rest.push(wanted));
        assert(all[rest.len() as int] == wanted);
    } else {
        assert(entries.drop_last()[k] == entries[k]);
        law_every_repository_is_listed(root, entries.drop_last(), k, name, l, bare);
        let i = choose|i: int| 0 <= i < rest.len() && rest[i] == wanted;
        assert(all[i] == wanted);
    }
}

/// What is listed is a repository among the entries of the root.
pub proof fn law_listed_is_an_entry(root: Seq<Seq<char>>, entries: Seq<RootEntryView>, i: int)
    requires
        0 <= i < repo::repos_in(root, entries).len(),
    ensures
        exists|k: int|
            0 <= k < entries.len() && (#[trigger] entries[k]).name == Some(
                repo::repos_in(root, entries)[i].name,
            ) && repo::repos_in(root, entries)[i].files == entries[k].candidate.files,
    decreases entries.len(),
{
    let all = repo::repos_in(root, entries);
    let less = entries.drop_last();
    let rest = repo::repos_in(root, less);
    if i < rest.len() {
        law_listed_is_an_entry(root, less, i);
        let k = choose|k: int|
            0 <= k < less.len() && (#[trigger] less[k]).name == Some(rest[i].name) && rest[i].files
                == less[k].candidate.files;
        assert(entries[k] == less[k]);
        assert(all[i] == rest[i]);
    } else {
        assert(entries[entries.len() - 1] == entries.last());
    }
}

/// True when an entry of the root is a repository with a name.
pub open spec fn is_named_repository(root: Seq<Seq<char>>, e: RootEntryView) -> bool {
    e.name is Some && (e.candidate.location matches Some(l) && (is_repository(root, l, true)
        || is_repository(root, l, false)))
}

/// The repository that such an entry is.
pub open spec fn repository_of(root: Seq<Seq<char>>, e: RootEntryView) -> RepoView {
    let l = e.candidate.location->0;
    repository(e.name->0, l, is_repository(root, l, true), e.candidate)
}

/// The list holds each repository among the entries of the root once, in their
/// order, and nothing else.
pub proof fn law_list_holds_each_repository_once(root: Seq<Seq<char>>, entries: Seq<RootEntryView>)
    ensures
        repo::repos_in(root, entries) == entries.filter(
            |e: RootEntryView| is_named_repository(root, e),
        ).map_values(|e: RootEntryView| repository_of(root, e)),
    decreases entries.len(),
{
    reveal(Seq::filter);
    let some = entries.filter(|e: RootEntryView| is_named_repository(root, e));
    let made = some.map_values(|e: RootEntryView| repository_of(root, e));
    if entries.len() > 0 {
        let rest = entries.drop_last();
        let e = entries.last();
        let fewer = rest.filter(|e: RootEntryView| is_named_repository(root, e));
        law_list_holds_each_repository_once(root, rest);
        if is_named_repository(root, e) {
            let l = e.candidate.location->0;
            let bare = is_repository(root, l, true);
            law_repository_is_recognised(root, e.name->0, e.candidate, l, bare);
            assert(some == fewer.push(e));
            assert(made =~= fewer.map_values(|e: RootEntryView| repository_of(root, e)).push(
                repository_of(root, e),
            ));
        } else {
            if e.name is Some {
                law_other_locations_are_no_repositories(root, e.name->0, e.candidate);
            }
            assert(some == fewer);
        }
    } else {
        assert(made =~= Seq::empty());
        assert(repo::repos_in(root, entries) =~= Seq::empty());
    }
}

// ---------------------------------------------------------------------------
// Routes

proof fn lemma_nonempty(parts: Seq<Seq<char>>)
    requires
        forall|i: int| 0 <= i < parts.len() ==> (#[trigger] parts[i]).len() > 0,
    ensures
        route::nonempty(seq![Seq::<char>::empty()] + parts) == parts,
    decreases parts.len(),
{
    let none: Seq<char> = Seq::empty();
    let all = seq![none] + parts;
    if parts.len() == 0 {
        assert(all =~= seq![none]);
        assert(seq![none].drop_last() =~= Seq::empty());
        reveal_with_fuel(route::nonempty, 2);
        assert(route::nonempty(all) =~= parts);
    } else {
        let rest = parts.drop_last();
        assert forall|i: int| 0 <= i < rest.len() implies (#[trigger] rest[i]).len() > 0 by {
            assert(rest[i] == parts[i]);
        }
        lemma_nonempty(rest);
        assert(all.drop_last() =~= seq![none] + rest);
        assert(all.last() == parts.last());
        assert(parts[parts.len() - 1].len() > 0);
        assert(rest.push(parts.last()) =~= parts);
    }
}

/// The path of something in a repository.
pub open spec fn repo_path(name: Seq<char>, rest: Seq<Seq<char>>) -> Seq<char> {
    "/repo/"@ + name + "/"@ + text::join(rest, "/"@)
}

/// A path below `/repo/` leads to the repository that it names, with the parts that
/// follow the name.
pub proof fn law_path_names_repository_and_rest(name: Seq<char>, rest: Seq<Seq<char>>)
    requires
        name.len() > 0,
        !name.contains('/'),
        rest.len() > 0,
        forall|i: int|
            0 <= i < rest.len() ==> (#[trigger] rest[i]).len() > 0 && !rest[i].contains('/'),
    ensures
        route::route_of(repo_path(name, rest)) == (RouteView::Repository { name, rest }),
{
    reveal_strlit("/repo/");
    reveal_strlit("repo");
    reveal_strlit("/");
    assert("/"@ =~= seq!['/']);
    let none: Seq<char> = Seq::empty();
    let parts = seq!["repo"@, name] + rest;
    let all = seq![none] + parts;
    assert(!"repo"@.contains('/')) by {
        assert("repo"@[0] == 'r' && "repo"@[1] == 'e' && "repo"@[2] == 'p' && "repo"@[3] == 'o');
    }
    assert forall|i: int| 0 <= i < parts.len() implies (#[trigger] parts[i]).len() > 0
        && !parts[i].contains('/') by {
        if i >= 2 {
            assert(parts[i] == rest[i - 2]);
        }
    }
    assert forall|i: int| 0 <= i < all.len() implies !(#[trigger] all[i]).contains('/') by {
        if i > 0 {
            assert(all[i] == parts[i - 1]);
        }
    }
    lists::law_join_then_split(all, '/');
    lemma_nonempty(parts);
    text::lemma_join_first(all, "/"@);
    assert(all.drop_first() =~= parts);
    text::lemma_join_first(parts, "/"@);
    let two = seq![name] + rest;
    assert(parts.drop_first() =~= two);
    text::lemma_join_first(two, "/"@);
    assert(two.drop_first() =~= rest);
    assert(text::join(all, "/"@) =~= repo_path(name, rest));
    assert(parts.skip(2) =~= rest);
}

/// Slashes at the ends of a path, and doubled ones, do not count.
pub proof fn law_empty_parts_do_not_count(path: Seq<char>)
    ensures
        route::parts_of(path) == text::split(path, '/').filter(|p: Seq<char>| p.len() > 0),
{
    lemma_filtered(text::split(path, '/'));
}

proof fn lemma_filtered(parts: Seq<Seq<char>>)
    ensures
        route::nonempty(parts) == parts.filter(|p: Seq<char>| p.len() > 0),
    decreases parts.len(),
{
    reveal(Seq::filter);
    if parts.len() > 0 {
        lemma_filtered(parts.drop_last());
    } else {
        assert(route::nonempty(parts) =~= parts.filter(|p: Seq<char>| p.len() > 0));
    }
}

/// The first two parts of a path below `/repo` name the repository, and the rest is
/// what is asked for of it.
pub proof fn law_parts_are_routed(path: Seq<char>, name: Seq<char>, rest: Seq<Seq<char>>)
    ensures
        route::parts_of(path).len() == 0 ==> route::route_of(path) == RouteView::Index,
        route::parts_of(path).len() > 0 && route::parts_of(path)[0] != "repo"@ ==> route::route_of(
            path,
        ) == RouteView::NotFound,
        route::parts_of(path) == seq!["repo"@] ==> route::route_of(path)
            == RouteView::MissingRepository,
        route::parts_of(path) == seq!["repo"@, name] + rest ==> route::route_of(path) == (
        RouteView::Repository { name, rest }),
{
    if route::parts_of(path) == seq!["repo"@, name] + rest {
        assert((seq!["repo"@, name] + rest).skip(2) =~= rest);
    }
}

/// The site's root is the list of repositories, and anything that is neither that
/// nor below `/repo` is not found.
pub proof fn law_other_paths_lead_elsewhere(first: Seq<char>)
    requires
        first.len() > 0,
        !first.contains('/'),
    ensures
        route::route_of("/"@) == RouteView::Index,
        route::route_of("/"@ + first) == (if first == "repo"@ {
            RouteView::MissingRepository
        } else {
            RouteView::NotFound
        }),
{
    reveal_strlit("/");
    let none: Seq<char> = Seq::empty();
    text::lemma_split_one(none, '/');
    text::lemma_split_cons(none, none, '/');
    assert("/"@ =~= none + seq!['/'] + none);
    assert(seq![none] + seq![none] =~= seq![none, none]);
    assert(seq![none, none].drop_last() =~= seq![none]);
    assert(seq![none].drop_last() =~= Seq::empty());
    reveal_with_fuel(route::nonempty, 3);
    assert(route::parts_of("/"@).len() == 0);
    text::lemma_split_one(first, '/');
    text::lemma_split_cons(none, first, '/');
    assert("/"@ + first =~= none + seq!['/'] + first);
    lemma_nonempty(seq![first]);
    assert(route::parts_of("/"@ + first) == seq![first]);
}

// ---------------------------------------------------------------------------
// Queries

/// A key and its value, as a client writes them.
pub open spec fn written_pair(p: (Seq<char>, Seq<char>)) -> Seq<char> {
    html::query_encoded(p.0) + seq!['='] + html::query_encoded(p.1)
}

/// The values that a list of pairs gives its keys; the last of a key counts.
pub open spec fn values(pairs: Seq<(Seq<char>, Seq<char>)>) -> Map<Seq<char>, Seq<char>>
    decreases pairs.len(),
{
    if pairs.len() == 0 {
        Map::empty()
    } else {
        values(pairs.drop_last()).insert(pairs.last().0, pairs.last().1)
    }
}

proof fn lemma_written_pair(p: (Seq<char>, Seq<char>))
    ensures
        http::query_pair(written_pair(p)) == p,
        !written_pair(p).contains('&'),
        written_pair(p).len() > 0,
{
    let key = html::query_encoded(p.0);
    let value = html::query_encoded(p.1);
    let part = written_pair(p);
    assert forall|i: int| 0 <= i < key.len() implies urls::url_char(#[trigger] key[i]) by {
        urls::law_encoded_is_plain(p.0, i);
    }
    assert forall|i: int| 0 <= i < value.len() implies urls::url_char(#[trigger] value[i]) by {
        urls::law_encoded_is_plain(p.1, i);
    }
    assert forall|i: int| 0 <= i < part.len() implies part[i] != '&' by {
        if i < key.len() {
            assert(part[i] == key[i]);
        } else if i > key.len() {
            assert(part[i] == value[i - key.len() - 1]);
        }
    }
    links::lemma_no_separator(key);
    links::lemma_query_pair(part, key, value);
    urls::law_query_round_trip(p.0);
    urls::law_query_round_trip(p.1);
}

proof fn lemma_values(pairs: Seq<(Seq<char>, Seq<char>)>)
    ensures
        http::query_of(pairs.map_values(|p: (Seq<char>, Seq<char>)| written_pair(p))) == values(
            pairs,
        ),
    decreases pairs.len(),
{
    let parts = pairs.map_values(|p: (Seq<char>, Seq<char>)| written_pair(p));
    if pairs.len() > 0 {
        lemma_values(pairs.drop_last());
        lemma_written_pair(pairs.last());
        assert(parts.drop_last() =~= pairs.drop_last().map_values(
            |p: (Seq<char>, Seq<char>)| written_pair(p),
        ));
        assert(parts.last() == written_pair(pairs.last()));
    } else {
        assert(parts =~= Seq::empty());
    }
}

/// A query gives every key the value that a client wrote for it.
pub proof fn law_query_is_read(pairs: Seq<(Seq<char>, Seq<char>)>)
    requires
        pairs.len() > 0,
    ensures
        http::query_of(
            text::split(
                text::join(
                    pairs.map_values(|p: (Seq<char>, Seq<char>)| written_pair(p)),
                    seq!['&'],
                ),
                '&',
            ),
        ) == values(pairs),
{
    let parts = pairs.map_values(|p: (Seq<char>, Seq<char>)| written_pair(p));
    assert forall|i: int| 0 <= i < parts.len() implies !(#[trigger] parts[i]).contains('&') by {
        lemma_written_pair(pairs[i]);
    }
    lists::law_join_then_split(parts, '&');
    lemma_values(pairs);
}

/// A key without a value has the empty value, and what is empty is no pair.
pub proof fn law_bare_key_is_read(parts: Seq<Seq<char>>, key: Seq<char>)
    ensures
        key.len() > 0 ==> http::query_of(parts.push(html::query_encoded(key))) == http::query_of(
            parts,
        ).insert(key, Seq::empty()),
        http::query_of(parts.push(Seq::empty())) == http::query_of(parts),
{
    let none: Seq<char> = Seq::empty();
    let part = html::query_encoded(key);
    assert(parts.push(part).drop_last() =~= parts);
    assert(parts.push(none).drop_last() =~= parts);
    urls::law_query_round_trip(key);
    urls::law_query_round_trip(none);
    assert(html::query_encoded(none) =~= none) by {
        assert(encode_utf8(none) =~= Seq::empty());
    }
    assert forall|j: int| 0 <= j < part.len() implies part[j] != '=' by {
        urls::law_encoded_is_plain(key, j);
    }
    text::lemma_until_is(part, '=', part.len() as int);
    if key.len() > 0 && part.len() == 0 {
        assert(part =~= none);
        assert(key == none);
    }
}

// ---------------------------------------------------------------------------
// Requests

/// The target of a request: a path, and a query when there is one.
pub open spec fn target(path: Seq<char>, query: Seq<char>) -> Seq<char> {
    if query.len() == 0 {
        html::path_encoded(path)
    } else {
        html::path_encoded(path) + seq!['?'] + query
    }
}

/// A request for a path, as a client sends it.
pub open spec fn get(path: Seq<char>, query: Seq<char>, host: Seq<char>) -> Seq<u8> {
    encode_utf8(request_text("GET"@, target(path, query), "HTTP/1.1"@, host))
}

/// What such a request is read as.
pub open spec fn read_as(path: Seq<char>, query: Seq<char>, host: Seq<char>) -> RequestView {
    RequestView {
        method: "GET"@,
        path,
        query: http::query_of(text::split(query, '&')),
        host: Some(host),
    }
}

/// True when the query and the host can be sent.
pub open spec fn can_be_sent(query: Seq<char>, host: Seq<char>) -> bool {
    &&& forall|i: int| 0 <= i < query.len() ==> !text::is_space(#[trigger] query[i])
    &&& commits::one_line(host)
    &&& commits::trimmed(host)
}

/// A request is read as the path, the query and the host that a client asks for.
pub proof fn law_sent_request_is_read(path: Seq<char>, query: Seq<char>, host: Seq<char>)
    requires
        path.len() > 0,
        can_be_sent(query, host),
    ensures
        http::request_of(text::lossy(get(path, query, host))) == Some(read_as(path, query, host)),
        get(path, query, host).len() > 0,
{
    reveal_strlit("GET");
    reveal_strlit("HTTP/1.1");
    let encoded = html::path_encoded(path);
    let t = target(path, query);
    let raw = request_text("GET"@, t, "HTTP/1.1"@, host);
    assert forall|i: int| 0 <= i < encoded.len() implies urls::url_char(#[trigger] encoded[i]) by {
        urls::law_encoded_is_plain(path, i);
    }
    urls::law_path_round_trip(path);
    assert(encoded.len() > 0) by {
        if encoded.len() == 0 {
            let none: Seq<char> = Seq::empty();
            urls::law_path_round_trip(none);
            assert(html::path_encoded(none) =~= encoded) by {
                assert(encode_utf8(none) =~= Seq::empty());
            }
        }
    }
    assert forall|i: int| 0 <= i < t.len() implies !text::is_space(#[trigger] t[i]) by {
        if i < encoded.len() {
            assert(t[i] == encoded[i]);
        } else if i > encoded.len() {
            assert(t[i] == query[i - encoded.len() - 1]);
        }
    }
    assert(is_word("GET"@));
    assert(is_word("HTTP/1.1"@));
    requests::law_request_is_read("GET"@, t, "HTTP/1.1"@, host);
    encode_utf8_valid_utf8(raw);
    encode_utf8_decode_utf8(raw);
    assert(get(path, query, host).len() > 0) by {
        text::lemma_scalar_bytes(raw[0]);
    }
    assert forall|j: int| 0 <= j < encoded.len() implies t[j] != '?' by {
        assert(t[j] == encoded[j]);
    }
    if query.len() == 0 {
        text::lemma_until_is(t, '?', t.len() as int);
        assert(query =~= Seq::empty());
    } else {
        assert(t[encoded.len() as int] == '?');
        text::lemma_until_is(t, '?', encoded.len() as int);
        assert(t.take(encoded.len() as int) =~= encoded);
        assert(t.skip(encoded.len() as int + 1) =~= query);
    }
}

/// A request for something of a repository makes the server look for the repository
/// that it names, and no other.
pub proof fn law_request_leads_to_repository(
    config: ConfigView,
    name: Seq<char>,
    rest: Seq<Seq<char>>,
    query: Seq<char>,
    host: Seq<char>,
)
    requires
        admission::ordinary_name(name),
        rest.len() > 0,
        forall|i: int|
            0 <= i < rest.len() ==> (#[trigger] rest[i]).len() > 0 && !rest[i].contains('/'),
        can_be_sent(query, host),
    ensures
        session::received(config, get(repo_path(name, rest), query, host)) == StepView::Find(
            read_as(repo_path(name, rest), query, host),
            config.repo_root.push(name),
        ),
{
    admission::law_ordinary_names_are_accepted(name);
    law_path_names_repository_and_rest(name, rest);
    law_sent_request_is_read(repo_path(name, rest), query, host);
}

// ---------------------------------------------------------------------------
// Pages

/// The page of that name of a repository.
pub open spec fn page_named(
    page: Seq<char>,
    config: ConfigView,
    repo: RepoView,
    req: RequestView,
) -> Seq<char> {
    if page == "summary"@ {
        summary::summary_page(config.public_base, repo, req)
    } else if page == "log"@ {
        log::log_page(repo)
    } else if page == "tree"@ {
        objects::tree_page(repo, req)
    } else if page == "blob"@ {
        objects::blob_page(repo, req)
    } else if page == "commit"@ {
        objects::commit_page(repo, req)
    } else if page == "diff"@ {
        objects::diff_page(repo, req)
    } else {
        log::search_page(repo, req)
    }
}

/// True for the names of the pages of a repository.
pub open spec fn is_page_name(page: Seq<char>) -> bool {
    ||| page == "summary"@
    ||| page == "log"@
    ||| page == "tree"@
    ||| page == "blob"@
    ||| page == "commit"@
    ||| page == "diff"@
    ||| page == "search"@
}

proof fn lemma_page_literals()
    ensures
        !text::has_prefix("summary"@, "objects/"@) && "summary"@ != "HEAD"@ && "summary"@
            != "info/refs"@ && "summary"@ != "objects/info/packs"@,
        !text::has_prefix("log"@, "objects/"@) && "log"@ != "HEAD"@ && "log"@ != "info/refs"@
            && "log"@ != "objects/info/packs"@ && "log"@ != "summary"@,
        !text::has_prefix("tree"@, "objects/"@) && "tree"@ != "HEAD"@ && "tree"@ != "info/refs"@
            && "tree"@ != "objects/info/packs"@ && "tree"@ != "summary"@ && "tree"@ != "log"@,
        !text::has_prefix("blob"@, "objects/"@) && "blob"@ != "HEAD"@ && "blob"@ != "info/refs"@
            && "blob"@ != "objects/info/packs"@ && "blob"@ != "summary"@ && "blob"@ != "log"@
            && "blob"@ != "tree"@,
        !text::has_prefix("commit"@, "objects/"@) && "commit"@ != "HEAD"@ && "commit"@
            != "info/refs"@ && "commit"@ != "objects/info/packs"@ && "commit"@ != "summary"@
            && "commit"@ != "log"@ && "commit"@ != "tree"@ && "commit"@ != "blob"@,
        !text::has_prefix("diff"@, "objects/"@) && "diff"@ != "HEAD"@ && "diff"@ != "info/refs"@
            && "diff"@ != "objects/info/packs"@ && "diff"@ != "summary"@ && "diff"@ != "log"@
            && "diff"@ != "tree"@ && "diff"@ != "blob"@ && "diff"@ != "commit"@,
        !text::has_prefix("search"@, "objects/"@) && "search"@ != "HEAD"@ && "search"@
            != "info/refs"@ && "search"@ != "objects/info/packs"@ && "search"@ != "summary"@
            && "search"@ != "log"@ && "search"@ != "tree"@ && "search"@ != "blob"@ && "search"@
            != "commit"@ && "search"@ != "diff"@,
{
    reveal_strlit("summary");
    reveal_strlit("log");
    reveal_strlit("tree");
    reveal_strlit("blob");
    reveal_strlit("commit");
    reveal_strlit("diff");
    reveal_strlit("search");
    reveal_strlit("HEAD");
    reveal_strlit("info/refs");
    reveal_strlit("objects/info/packs");
    reveal_strlit("objects/");
    assert("summary"@.len() == 7 && "log"@.len() == 3 && "tree"@.len() == 4 && "blob"@.len() == 4
        && "commit"@.len() == 6 && "diff"@.len() == 4 && "search"@.len() == 6 && "HEAD"@.len() == 4
        && "info/refs"@.len() == 9 && "objects/info/packs"@.len() == 18);
    assert("tree"@[0] == 't' && "blob"@[0] == 'b' && "diff"@[0] == 'd' && "HEAD"@[0] == 'H'
        && "commit"@[0] == 'c' && "search"@[0] == 's');
}

/// A request for a page of a repository is answered with that page of that
/// repository, made for that request.
pub proof fn law_page_request_is_answered(
    config: ConfigView,
    site: SiteView,
    name: Seq<char>,
    page: Seq<char>,
    query: Seq<char>,
    host: Seq<char>,
    l: LocationView,
    bare: bool,
)
    requires
        admission::ordinary_name(name),
        is_page_name(page),
        can_be_sent(query, host),
        site.candidate.location == Some(l),
        is_repository(config.repo_root, l, bare),
    ensures
        ({
            let path = repo_path(name, seq![page]);
            session::last_step(config, get(path, query, host), site) == StepView::Send(
                encode_utf8(
                    page_named(
                        page,
                        config,
                        repository(name, l, bare, site.candidate),
                        read_as(path, query, host),
                    ),
                ),
            )
        }),
{
    let rest = seq![page];
    lemma_page_name(page);
    admission::law_ordinary_names_are_accepted(name);
    law_request_leads_to_repository(config, name, rest, query, host);
    law_path_names_repository_and_rest(name, rest);
    law_repository_is_recognised(config.repo_root, name, site.candidate, l, bare);
    lemma_get_is_no_head(repo_path(name, rest), query, host);
    lemma_found_page(
        config,
        site,
        name,
        page,
        read_as(repo_path(name, rest), query, host),
        repository(name, l, bare, site.candidate),
    );
}

proof fn lemma_found_page(
    config: ConfigView,
    site: SiteView,
    name: Seq<char>,
    page: Seq<char>,
    req: RequestView,
    repo: RepoView,
)
    requires
        is_page_name(page),
        route::page_of(seq![page]) == page_called(page),
        route::route_of(req.path) == (RouteView::Repository { name, rest: seq![page] }),
        repo::repo_named(config.repo_root, name, site.candidate) == Some(repo),
        !session::is_head(req),
    ensures
        session::after_find(config, req, site.candidate) == StepView::Send(
            encode_utf8(page_named(page, config, repo, req)),
        ),
{
}

proof fn lemma_get_is_no_head(path: Seq<char>, query: Seq<char>, host: Seq<char>)
    ensures
        !session::is_head(read_as(path, query, host)),
{
    reveal_strlit("GET");
    reveal_strlit("HEAD");
    assert("GET"@.len() == 3 && "HEAD"@.len() == 4);
}

/// The page that a name of a page stands for.
pub open spec fn page_called(page: Seq<char>) -> route::Page {
    if page == "summary"@ {
        route::Page::Summary
    } else if page == "log"@ {
        route::Page::Log
    } else if page == "tree"@ {
        route::Page::Tree
    } else if page == "blob"@ {
        route::Page::Blob
    } else if page == "commit"@ {
        route::Page::Commit
    } else if page == "diff"@ {
        route::Page::Diff
    } else {
        route::Page::Search
    }
}

proof fn lemma_page_name(page: Seq<char>)
    requires
        is_page_name(page),
    ensures
        page.len() > 0,
        !page.contains('/'),
        route::page_of(seq![page]) == page_called(page),
{
    reveal_strlit("summary");
    reveal_strlit("log");
    reveal_strlit("tree");
    reveal_strlit("blob");
    reveal_strlit("commit");
    reveal_strlit("diff");
    reveal_strlit("search");
    lemma_page_literals();
    assert(text::join(seq![page], "/"@) =~= page) by {
        reveal_with_fuel(text::join, 2);
        assert(seq![page].drop_last() =~= Seq::empty());
    }
}

/// The summary is also what a repository's bare address shows, whatever follows a
/// page's name does not count, and an unknown page is not found.
pub proof fn law_page_is_told_by_its_first_part(page: Seq<char>, rest: Seq<Seq<char>>)
    requires
        rest.len() > 0,
        rest[0] == page,
        !page.contains('/'),
        page != "HEAD"@,
        page != "info"@,
        page != "objects"@,
    ensures
        route::page_of(Seq::empty()) == route::Page::Summary,
        is_page_name(page) ==> route::page_of(rest) == route::page_of(seq![page]),
        !is_page_name(page) ==> route::page_of(rest) == route::Page::Unknown,
{
    reveal_strlit("HEAD");
    reveal_strlit("info");
    reveal_strlit("objects");
    reveal_strlit("info/refs");
    reveal_strlit("objects/info/packs");
    reveal_strlit("objects/");
    reveal_strlit("/");
    lemma_page_literals();
    lemma_starts(page, rest);
    lemma_starts(page, seq![page]);
}

proof fn lemma_starts(page: Seq<char>, rest: Seq<Seq<char>>)
    requires
        rest.len() > 0,
        rest[0] == page,
        !page.contains('/'),
        page != "HEAD"@,
        page != "info"@,
        page != "objects"@,
    ensures
        ({
            let path = text::join(rest, "/"@);
            &&& path != "HEAD"@
            &&& path != "info/refs"@
            &&& path != "objects/info/packs"@
            &&& !text::has_prefix(path, "objects/"@)
        }),
{
    reveal_strlit("HEAD");
    reveal_strlit("info");
    reveal_strlit("objects");
    reveal_strlit("info/refs");
    reveal_strlit("objects/info/packs");
    reveal_strlit("objects/");
    reveal_strlit("/");
    let path = text::join(rest, "/"@);
    let n = page.len() as int;
    assert(path.len() >= n && path.take(n) =~= page && (path.len() > n ==> path[n] == '/')) by {
        if rest.len() == 1 {
            assert(rest =~= seq![page]);
            reveal_with_fuel(text::join, 2);
            assert(path =~= page);
        } else {
            text::lemma_join_first(rest, "/"@);
        }
    }
    assert forall|i: int| 0 <= i < n implies path[i] == page[i] && page[i] != '/' by {
        assert(path.take(n)[i] == path[i]);
        assert(page.contains(page[i]));
    }
    if path == "HEAD"@ {
        if n < 4 {
            assert(path[n] == '/');
        }
        assert(page =~= "HEAD"@);
    }
    if path == "info/refs"@ {
        assert(path[4] == '/');
        assert(n == 4);
        assert(page =~= "info"@);
    }
    if path == "objects/info/packs"@ || text::has_prefix(path, "objects/"@) {
        assert(path.take(8) =~= "objects/"@);
        assert forall|i: int| 0 <= i < 8 implies path[i] == "objects/"@[i] by {
            assert(path.take(8)[i] == path[i]);
        }
        assert("objects/"@[0] == 'o' && "objects/"@[1] == 'b' && "objects/"@[2] == 'j'
            && "objects/"@[3] == 'e' && "objects/"@[4] == 'c' && "objects/"@[5] == 't'
            && "objects/"@[6] == 's' && "objects/"@[7] == '/');
        if n > 7 {
            assert(path[7] == '/');
        } else if n < 7 {
            assert(path[n] == '/');
        }
        assert(n == 7);
        assert(page =~= "objects"@);
    }
}

/// A name that is no repository's is answered with a page that says so.
pub proof fn law_missing_repository_is_reported(
    config: ConfigView,
    site: SiteView,
    name: Seq<char>,
    rest: Seq<Seq<char>>,
    query: Seq<char>,
    host: Seq<char>,
)
    requires
        admission::ordinary_name(name),
        rest.len() > 0,
        forall|i: int|
            0 <= i < rest.len() ==> (#[trigger] rest[i]).len() > 0 && !rest[i].contains('/'),
        can_be_sent(query, host),
        site.candidate.location matches Some(l) ==> !is_repository(config.repo_root, l, true)
            && !is_repository(config.repo_root, l, false),
    ensures
        session::last_step(config, get(repo_path(name, rest), query, host), site)
            == StepView::Send(
            encode_utf8(
                crate::app::parts::page_response(
                    404,
                    "Not Found"@,
                    "repository not found"@,
                    "<h1>repository not found</h1>"@,
                ),
            ),
        ),
{
    reveal_strlit("GET");
    reveal_strlit("HEAD");
    admission::law_ordinary_names_are_accepted(name);
    law_request_leads_to_repository(config, name, rest, query, host);
    law_path_names_repository_and_rest(name, rest);
    law_other_locations_are_no_repositories(config.repo_root, name, site.candidate);
    assert("GET"@.len() == 3 && "HEAD"@.len() == 4);
    assert(!session::is_head(read_as(repo_path(name, rest), query, host)));
}

// ---------------------------------------------------------------------------
// Files for a clone

/// True when a step sends bytes of that type.
pub open spec fn serves(step: StepView, kind: Seq<char>, bytes: Seq<u8>) -> bool {
    step matches StepView::Send(sent) && pages::carries(sent, "200 OK"@, kind, bytes)
}

proof fn lemma_clone_paths()
    ensures
        text::join(seq!["HEAD"@], "/"@) == "HEAD"@,
        text::join(seq!["info"@, "refs"@], "/"@) == "info/refs"@,
        text::join(seq!["objects"@, "info"@, "packs"@], "/"@) == "objects/info/packs"@,
        "HEAD"@.len() == 4 && "info/refs"@.len() == 9 && "objects/info/packs"@.len() == 18,
        "HEAD"@ != "GET"@,
        "info"@.len() > 0 && "refs"@.len() > 0 && "objects"@.len() > 0 && "packs"@.len() > 0,
        !"HEAD"@.contains('/') && !"info"@.contains('/') && !"refs"@.contains('/')
            && !"objects"@.contains('/') && !"packs"@.contains('/'),
{
    reveal_strlit("GET");
    reveal_strlit("HEAD");
    reveal_strlit("info");
    reveal_strlit("refs");
    reveal_strlit("objects");
    reveal_strlit("packs");
    reveal_strlit("info/refs");
    reveal_strlit("objects/info/packs");
    reveal_strlit("/");
    let one = seq!["HEAD"@];
    let two = seq!["info"@, "refs"@];
    let three = seq!["objects"@, "info"@, "packs"@];
    assert(one.drop_last() =~= Seq::empty());
    assert(two.drop_last() =~= seq!["info"@]);
    assert(seq!["info"@].drop_last() =~= Seq::empty());
    assert(three.drop_last() =~= seq!["objects"@, "info"@]);
    assert(seq!["objects"@, "info"@].drop_last() =~= seq!["objects"@]);
    assert(seq!["objects"@].drop_last() =~= Seq::empty());
    reveal_with_fuel(text::join, 4);
    assert(text::join(one, "/"@) =~= "HEAD"@);
    assert(text::join(two, "/"@) =~= "info/refs"@);
    assert(text::join(three, "/"@) =~= "objects/info/packs"@);
}

/// A clone is sent HEAD as it is.
pub proof fn law_head_is_served(
    config: ConfigView,
    site: SiteView,
    name: Seq<char>,
    query: Seq<char>,
    host: Seq<char>,
    l: LocationView,
    bare: bool,
    bytes: Seq<u8>,
)
    requires
        admission::ordinary_name(name),
        can_be_sent(query, host),
        site.candidate.location == Some(l),
        is_repository(config.repo_root, l, bare),
        site.candidate.files.head == Some(bytes),
    ensures
        serves(
            session::last_step(config, get(repo_path(name, seq!["HEAD"@]), query, host), site),
            "text/plain; charset=utf-8"@,
            bytes,
        ),
{
    pages::lemma_found("text/plain; charset=utf-8"@, bytes);
    let rest = seq!["HEAD"@];
    lemma_clone_paths();
    admission::law_ordinary_names_are_accepted(name);
    law_repository_is_recognised(config.repo_root, name, site.candidate, l, bare);
    law_request_leads_to_repository(config, name, rest, query, host);
    law_path_names_repository_and_rest(name, rest);
}

/// A clone is sent the list of all refs.
pub proof fn law_ref_list_is_served(
    config: ConfigView,
    site: SiteView,
    name: Seq<char>,
    query: Seq<char>,
    host: Seq<char>,
    l: LocationView,
    bare: bool,
)
    requires
        admission::ordinary_name(name),
        can_be_sent(query, host),
        site.candidate.location == Some(l),
        is_repository(config.repo_root, l, bare),
    ensures
        serves(
            session::last_step(
                config,
                get(repo_path(name, seq!["info"@, "refs"@]), query, host),
                site,
            ),
            "text/plain; charset=utf-8"@,
            reader::info_lines(refs::listing(refs::all_refs(site.candidate.files))),
        ),
{
    pages::lemma_found(
        "text/plain; charset=utf-8"@,
        reader::info_lines(refs::listing(refs::all_refs(site.candidate.files))),
    );
    let rest = seq!["info"@, "refs"@];
    lemma_clone_paths();
    admission::law_ordinary_names_are_accepted(name);
    law_repository_is_recognised(config.repo_root, name, site.candidate, l, bare);
    law_request_leads_to_repository(config, name, rest, query, host);
    law_path_names_repository_and_rest(name, rest);
}

/// A clone is sent the list of all packs.
pub proof fn law_pack_list_is_served(
    config: ConfigView,
    site: SiteView,
    name: Seq<char>,
    query: Seq<char>,
    host: Seq<char>,
    l: LocationView,
    bare: bool,
)
    requires
        admission::ordinary_name(name),
        can_be_sent(query, host),
        site.candidate.location == Some(l),
        is_repository(config.repo_root, l, bare),
    ensures
        serves(
            session::last_step(
                config,
                get(repo_path(name, seq!["objects"@, "info"@, "packs"@]), query, host),
                site,
            ),
            "text/plain; charset=utf-8"@,
            clone::pack_lines(clone::pack_names(site.candidate.files.packs)),
        ),
{
    pages::lemma_found(
        "text/plain; charset=utf-8"@,
        clone::pack_lines(clone::pack_names(site.candidate.files.packs)),
    );
    let rest = seq!["objects"@, "info"@, "packs"@];
    lemma_clone_paths();
    admission::law_ordinary_names_are_accepted(name);
    law_repository_is_recognised(config.repo_root, name, site.candidate, l, bare);
    law_request_leads_to_repository(config, name, rest, query, host);
    law_path_names_repository_and_rest(name, rest);
}

/// The type of an object's or pack's file: packs and their indexes are bytes.
pub open spec fn kind_of(path: Seq<char>) -> Seq<char> {
    if text::has_suffix(path, ".pack"@) || text::has_suffix(path, ".idx"@) {
        "application/octet-stream"@
    } else {
        "text/plain; charset=utf-8"@
    }
}

/// An object's or pack's file is sent to a clone as it is, if it lies in the
/// repository's Git directory and is not longer than is allowed.
pub proof fn law_object_file_is_served(
    config: ConfigView,
    site: SiteView,
    name: Seq<char>,
    rest: Seq<Seq<char>>,
    query: Seq<char>,
    host: Seq<char>,
    l: LocationView,
    bare: bool,
    inside: Seq<Seq<char>>,
    bytes: Seq<u8>,
)
    requires
        admission::ordinary_name(name),
        can_be_sent(query, host),
        site.candidate.location == Some(l),
        is_repository(config.repo_root, l, bare),
        crate::security::clone_path_ok(text::join(rest, "/"@)),
        text::join(rest, "/"@) != "objects/info/packs"@,
        rest.len() > 0,
        forall|i: int|
            0 <= i < rest.len() ==> (#[trigger] rest[i]).len() > 0 && !rest[i].contains('/'),
        site.canonical == Some(
            (if bare {
                l.canonical->0
            } else {
                l.canonical->0.push(".git"@)
            }) + inside,
        ),
        site.length matches Some(n) && n <= config.max_clone_file_bytes,
        site.contents == Some(bytes),
    ensures
        serves(
            session::last_step(config, get(repo_path(name, rest), query, host), site),
            kind_of(text::join(rest, "/"@)),
            bytes,
        ),
{
    pages::lemma_found(kind_of(text::join(rest, "/"@)), bytes);
    reveal_strlit("GET");
    reveal_strlit("HEAD");
    reveal_strlit("info/refs");
    reveal_strlit("objects/");
    let path = text::join(rest, "/"@);
    let dir = if bare {
        l.canonical->0
    } else {
        l.canonical->0.push(".git"@)
    };
    admission::law_ordinary_names_are_accepted(name);
    law_repository_is_recognised(config.repo_root, name, site.candidate, l, bare);
    law_request_leads_to_repository(config, name, rest, query, host);
    law_path_names_repository_and_rest(name, rest);
    crate::laws::access::law_clone_paths_lie_below_objects(path, 0);
    assert forall|i: int| 0 <= i < 8 implies path[i] == "objects/"@[i] by {
        assert(path.take(8)[i] == path[i]);
    }
    assert("HEAD"@[0] == 'H' && "info/refs"@[0] == 'i');
    assert((dir + inside).take(dir.len() as int) =~= dir);
    assert("GET"@.len() == 3 && "HEAD"@.len() == 4);
}

}
