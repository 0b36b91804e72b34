//! Which page a path asks for.

use vstd::prelude::*;
use crate::text::{self, join_strings, same, split_at_char, starts_with};

verus! {

/// The parts that are not empty.
pub open spec fn nonempty(parts: Seq<Seq<char>>) -> Seq<Seq<char>>
    decreases parts.len(),
{
    if parts.len() == 0 {
        Seq::empty()
    } else if parts.last().len() == 0 {
        nonempty(parts.drop_last())
    } else {
        nonempty(parts.drop_last()).push(parts.last())
    }
}

/// The parts of a path between its slashes; slashes at the ends and doubled ones
/// do not count.
pub open spec fn parts_of(path: Seq<char>) -> Seq<Seq<char>> {
    nonempty(text::split(path, '/'))
}

/// Split a path at its slashes.
pub fn path_parts(path: &str) -> (r: Vec<String>)
    ensures
        text::views(r@) == parts_of(path@),
{
    let all = split_at_char(path, '/');
    let ghost list = text::views(all@);
    let mut out: Vec<String> = Vec::new();
    let mut i: usize = 0;
    assert(text::views(out@) =~= nonempty(list.take(0)));
    while i < all.len()
        invariant
            list == text::views(all@),
            i <= all.len(),
            text::views(out@) == nonempty(list.take(i as int)),
        decreases all.len() - i,
    {
        assert(list.take(i + 1).drop_last() =~= list.take(i as int));
        assert(list.take(i + 1).last() == all@[i as int]@);
        let part = all[i].as_str();
        if !part.is_empty() {
            let ghost before = out@;
            out.push(part.to_owned());
            assert(text::views(out@) =~= text::views(before).push(part@));
        }
        i = i + 1;
    }
    assert(list.take(i as int) =~= list);
    out
}

/// What a path asks for.
pub enum Route {
    /// The list of repositories.
    Index,
    /// Nothing that is served.
    NotFound,
    /// A repository that is not named.
    MissingRepository,
    /// Something of the repository of that name: the parts of the path after it.
    Repository {
        /// The repository's name.
        name: String,
        /// The parts of the path after the name.
        rest: Vec<String>,
    },
}

/// What a route holds.
pub enum RouteView {
    /// The list of repositories.
    Index,
    /// Nothing that is served.
    NotFound,
    /// A repository that is not named.
    MissingRepository,
    /// Something of the repository of that name.
    Repository {
        /// The repository's name.
        name: Seq<char>,
        /// The parts of the path after the name.
        rest: Seq<Seq<char>>,
    },
}

impl View for Route {
    type V = RouteView;

    open spec fn view(&self) -> RouteView {
        match *self {
            Route::Index => RouteView::Index,
            Route::NotFound => RouteView::NotFound,
            Route::MissingRepository => RouteView::MissingRepository,
            Route::Repository { name, rest } => RouteView::Repository {
                name: name@,
                rest: text::views(rest@),
            },
        }
    }
}

/// What a path asks for.
pub open spec fn route_of(path: Seq<char>) -> RouteView {
    let parts = parts_of(path);
    if parts.len() == 0 {
        RouteView::Index
    } else if parts[0] != "repo"@ {
        RouteView::NotFound
    } else if parts.len() == 1 {
        RouteView::MissingRepository
    } else {
        RouteView::Repository { name: parts[1], rest: parts.skip(2) }
    }
}

/// Decide what a path asks for.
pub fn route(path: &str) -> (r: Route)
    ensures
        r@ == route_of(path@),
{
    let mut parts = path_parts(path);
    let ghost all = text::views(parts@);
    if parts.len() == 0 {
        assert(all.len() == 0);
        return Route::Index;
    }
    assert(all[0] == parts@[0]@);
    if !same(parts[0].as_str(), "repo") {
        return Route::NotFound;
    }
    if parts.len() == 1 {
        return Route::MissingRepository;
    }
    assert(all[1] == parts@[1]@);
    let _prefix: String = parts.remove(0);
    let name: String = parts.remove(0);
    assert(text::views(parts@) =~= all.skip(2));
    Route::Repository { name, rest: parts }
}

/// What is asked of a repository.
#[derive(Clone, Copy, Debug, PartialEq, Eq, Structural)]
pub enum Page {
    /// The file `HEAD`, for a clone.
    Head,
    /// The list of refs, for a clone.
    InfoRefs,
    /// The list of packs, for a clone.
    InfoPacks,
    /// An object or pack file, for a clone.
    File,
    /// The summary page.
    Summary,
    /// The log page.
    Log,
    /// The tree page.
    Tree,
    /// The blob page.
    Blob,
    /// The commit page.
    Commit,
    /// The diff page.
    Diff,
    /// The search page.
    Search,
    /// Nothing that is served.
    Unknown,
}

/// What the path after a repository's name asks for: what a clone needs goes
/// before the pages, and the summary is the page when none is named.
pub open spec fn page_of(rest: Seq<Seq<char>>) -> Page {
    let path = text::join(rest, "/"@);
    if rest.len() == 0 {
        Page::Summary
    } else if path == "HEAD"@ {
        Page::Head
    } else if path == "info/refs"@ {
        Page::InfoRefs
    } else if path == "objects/info/packs"@ {
        Page::InfoPacks
    } else if text::has_prefix(path, "objects/"@) {
        Page::File
    } else if rest[0] == "summary"@ {
        Page::Summary
    } else if rest[0] == "log"@ {
        Page::Log
    } else if rest[0] == "tree"@ {
        Page::Tree
    } else if rest[0] == "blob"@ {
        Page::Blob
    } else if rest[0] == "commit"@ {
        Page::Commit
    } else if rest[0] == "diff"@ {
        Page::Diff
    } else if rest[0] == "search"@ {
        Page::Search
    } else {
        Page::Unknown
    }
}

/// Decide what the path after a repository's name asks for.
pub fn page_for(rest: &[String]) -> (r: Page)
    ensures
        r == page_of(text::views(rest@)),
{
    let ghost all = text::views(rest@);
    if rest.len() == 0 {
        return Page::Summary;
    }
    assert(all[0] == rest@[0]@);
    let joined = join_strings(rest, "/");
    let path = joined.as_str();
    let view = rest[0].as_str();
    if same(path, "HEAD") {
        Page::Head
    } else if same(path, "info/refs") {
        Page::InfoRefs
    } else if same(path, "objects/info/packs") {
        Page::InfoPacks
    } else if starts_with(path, "objects/") {
        Page::File
    } else if same(view, "summary") {
        Page::Summary
    } else if same(view, "log") {
        Page::Log
    } else if same(view, "tree") {
        Page::Tree
    } else if same(view, "blob") {
        Page::Blob
    } else if same(view, "commit") {
        Page::Commit
    } else if same(view, "diff") {
        Page::Diff
    } else if same(view, "search") {
        Page::Search
    } else {
        Page::Unknown
    }
}

/// True when a page shows what is in objects. The others are made of refs, names
/// and descriptions, so that the objects need not be read for them.
pub open spec fn shows_objects(page: Page) -> bool {
    match page {
        Page::Summary => true,
        Page::Log => true,
        Page::Tree => true,
        Page::Blob => true,
        Page::Commit => true,
        Page::Search => true,
        _ => false,
    }
}

/// Decide whether objects have to be read for a page.
pub fn reads_objects(page: Page) -> (r: bool)
    ensures
        r == shows_objects(page),
{
    match page {
        Page::Summary => true,
        Page::Log => true,
        Page::Tree => true,
        Page::Blob => true,
        Page::Commit => true,
        Page::Search => true,
        _ => false,
    }
}

}
