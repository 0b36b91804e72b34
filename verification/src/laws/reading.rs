//! What need not be read: the answers that do not depend on it.

use vstd::prelude::*;
use crate::app::route::{self, Page};
use crate::app::session;
use crate::app::{clone, index, parts};
use crate::config::ConfigView;
use crate::git::{reader, refs};
use crate::http::RequestView;
use crate::repo::{self, FileView, FilesView, Repo, RepoView, RootEntryView};
use crate::sorted;
use crate::text;

verus! {

/// True when two repositories differ at most in their objects: the names of the
/// files in `objects/pack` are the same.
pub open spec fn same_but_objects(a: FilesView, b: FilesView) -> bool {
    &&& a.description == b.description
    &&& a.head == b.head
    &&& a.refs == b.refs
    &&& a.packed_refs == b.packed_refs
    &&& a.packs.len() == b.packs.len()
    &&& forall|i: int| 0 <= i < a.packs.len() ==> (#[trigger] a.packs[i]).name == b.packs[i].name
}

proof fn lemma_pack_names(a: Seq<FileView>, b: Seq<FileView>)
    requires
        a.len() == b.len(),
        forall|i: int| 0 <= i < a.len() ==> (#[trigger] a[i]).name == b[i].name,
    ensures
        clone::pack_names(a) == clone::pack_names(b),
    decreases a.len(),
{
    if a.len() > 0 {
        let x = a.drop_last();
        let y = b.drop_last();
        assert forall|i: int| 0 <= i < x.len() implies (#[trigger] x[i]).name == y[i].name by {
            assert(x[i] == a[i] && y[i] == b[i]);
        }
        lemma_pack_names(x, y);
        assert(a[a.len() - 1].name == b[b.len() - 1].name);
    }
}

/// The pages that show no objects are the same whatever the objects are.
pub proof fn law_other_pages_need_no_objects(
    config: ConfigView,
    a: RepoView,
    b: RepoView,
    page: Page,
    req: RequestView,
)
    requires
        !route::shows_objects(page),
        a.name == b.name,
        same_but_objects(a.files, b.files),
    ensures
        session::repo_answer(config, a, page, req) == session::repo_answer(config, b, page, req),
{
    assert(refs::all_refs(a.files) == refs::all_refs(b.files));
    lemma_pack_names(a.files.packs, b.files.packs);
}

/// True when two entries of the root differ at most in the files of the
/// repository other than its description.
pub open spec fn same_on_index(a: RootEntryView, b: RootEntryView) -> bool {
    &&& a.name == b.name
    &&& a.candidate.location == b.candidate.location
    &&& a.candidate.files.description == b.candidate.files.description
}

/// True when two repositories look the same on the index.
pub open spec fn alike(a: RepoView, b: RepoView) -> bool {
    a.name == b.name && a.files.description == b.files.description
}

/// True when two lists look the same on the index.
pub open spec fn all_alike(a: Seq<RepoView>, b: Seq<RepoView>) -> bool {
    a.len() == b.len() && forall|i: int| 0 <= i < a.len() ==> alike(#[trigger] a[i], b[i])
}

proof fn lemma_repos_alike(
    root: Seq<Seq<char>>,
    a: Seq<RootEntryView>,
    b: Seq<RootEntryView>,
)
    requires
        a.len() == b.len(),
        forall|i: int| 0 <= i < a.len() ==> same_on_index(#[trigger] a[i], b[i]),
    ensures
        all_alike(repo::repos_in(root, a), repo::repos_in(root, b)),
    decreases a.len(),
{
    if a.len() > 0 {
        let x = a.drop_last();
        let y = b.drop_last();
        assert forall|i: int| 0 <= i < x.len() implies same_on_index(#[trigger] x[i], y[i]) by {
            assert(x[i] == a[i] && y[i] == b[i]);
        }
        lemma_repos_alike(root, x, y);
        assert(same_on_index(a[a.len() - 1], b[b.len() - 1]));
    }
}

proof fn lemma_insert_alike(a: Seq<RepoView>, b: Seq<RepoView>, r: RepoView, s: RepoView)
    requires
        all_alike(a, b),
        alike(r, s),
    ensures
        all_alike(sorted::insert::<Repo>(a, r), sorted::insert::<Repo>(b, s)),
    decreases a.len(),
{
    if a.len() > 0 {
        assert(alike(a[a.len() - 1], b[b.len() - 1]));
        let x = a.drop_last();
        let y = b.drop_last();
        assert forall|i: int| 0 <= i < x.len() implies alike(#[trigger] x[i], y[i]) by {
            assert(x[i] == a[i] && y[i] == b[i]);
        }
        lemma_insert_alike(x, y, r, s);
    }
}

proof fn lemma_sorted_alike(a: Seq<RepoView>, b: Seq<RepoView>)
    requires
        all_alike(a, b),
    ensures
        all_alike(sorted::by_name::<Repo>(a), sorted::by_name::<Repo>(b)),
    decreases a.len(),
{
    if a.len() > 0 {
        let x = a.drop_last();
        let y = b.drop_last();
        assert forall|i: int| 0 <= i < x.len() implies alike(#[trigger] x[i], y[i]) by {
            assert(x[i] == a[i] && y[i] == b[i]);
        }
        lemma_sorted_alike(x, y);
        assert(alike(a[a.len() - 1], b[b.len() - 1]));
        lemma_insert_alike(sorted::by_name::<Repo>(x), sorted::by_name::<Repo>(y), a.last(), b.last());
    }
}

proof fn lemma_rows_alike(q: Seq<char>, a: Seq<RepoView>, b: Seq<RepoView>)
    requires
        all_alike(a, b),
    ensures
        index::index_rows(q, a) == index::index_rows(q, b),
    decreases a.len(),
{
    if a.len() > 0 {
        let x = a.drop_last();
        let y = b.drop_last();
        assert forall|i: int| 0 <= i < x.len() implies alike(#[trigger] x[i], y[i]) by {
            assert(x[i] == a[i] && y[i] == b[i]);
        }
        lemma_rows_alike(q, x, y);
        assert(alike(a[a.len() - 1], b[b.len() - 1]));
        assert(reader::description_of(a.last().files) == reader::description_of(b.last().files));
    }
}

/// The index is the same whatever the repositories hold beside their
/// descriptions.
pub proof fn law_index_needs_descriptions_only(
    config: ConfigView,
    req: RequestView,
    a: Seq<RootEntryView>,
    b: Seq<RootEntryView>,
)
    requires
        a.len() == b.len(),
        forall|i: int| 0 <= i < a.len() ==> same_on_index(#[trigger] a[i], b[i]),
    ensures
        session::after_list(config, req, Some(a)) == session::after_list(config, req, Some(b)),
{
    let x = repo::repos_in(config.repo_root, a);
    let y = repo::repos_in(config.repo_root, b);
    let q = text::trim(parts::query_or(req, "q"@, ""@), text::Class::Space);
    lemma_repos_alike(config.repo_root, a, b);
    lemma_sorted_alike(x, y);
    lemma_rows_alike(q, sorted::by_name::<Repo>(x), sorted::by_name::<Repo>(y));
}

}
