//! Lists: paths in parts, and sorted lists.

use vstd::prelude::*;
use crate::app::route::{self, RouteView};
use crate::app::session::{self, StepView};
use crate::app::clone;
use crate::config::ConfigView;
use crate::http::RequestView;
use crate::porcelain::rows;
use crate::repo::{self, CandidateView, FileView};
use crate::sorted::{self, Named};
use crate::text;

verus! {

// ---------------------------------------------------------------------------
// Paths in parts

/// The parts of a text hold no separator, and there is at least one.
proof fn lemma_parts_hold_no_separator(s: Seq<char>, sep: char)
    ensures
        text::split(s, sep).len() > 0,
        forall|i: int|
            0 <= i < text::split(s, sep).len() ==> !(#[trigger] text::split(s, sep)[i]).contains(
                sep,
            ),
    decreases s.len(),
{
    text::lemma_until(s, sep);
    let n = text::until(s, sep) as int;
    let parts = text::split(s, sep);
    if n >= s.len() {
        assert(parts =~= seq![s]);
    } else {
        let rest = s.skip(n + 1);
        lemma_parts_hold_no_separator(rest, sep);
        assert forall|i: int| 0 <= i < parts.len() implies !(#[trigger] parts[i]).contains(
            sep,
        ) by {
            if i == 0 {
                assert(parts[0] == s.take(n));
            } else {
                assert(parts[i] == text::split(rest, sep)[i - 1]);
            }
        }
    }
}

/// Joining the parts of a text gives the text.
pub proof fn law_split_then_join(s: Seq<char>, sep: char)
    ensures
        text::join(text::split(s, sep), seq![sep]) == s,
    decreases s.len(),
{
    text::lemma_until(s, sep);
    let n = text::until(s, sep) as int;
    let parts = text::split(s, sep);
    if n < s.len() {
        let rest = s.skip(n + 1);
        law_split_then_join(rest, sep);
        lemma_parts_hold_no_separator(rest, sep);
        text::lemma_join_first(parts, seq![sep]);
        assert(parts.drop_first() =~= text::split(rest, sep));
        assert(s.take(n) + seq![sep] + rest =~= s);
    }
}

/// Splitting a joined text gives its parts.
pub proof fn law_join_then_split(parts: Seq<Seq<char>>, sep: char)
    requires
        parts.len() > 0,
        forall|i: int| 0 <= i < parts.len() ==> !(#[trigger] parts[i]).contains(sep),
    ensures
        text::split(text::join(parts, seq![sep]), sep) == parts,
    decreases parts.len(),
{
    assert(!parts[0].contains(sep));
    if parts.len() == 1 {
        text::lemma_split_one(parts[0], sep);
        assert(seq![parts[0]] =~= parts);
    } else {
        let rest = parts.drop_first();
        text::lemma_join_first(parts, seq![sep]);
        assert forall|i: int| 0 <= i < rest.len() implies !(#[trigger] rest[i]).contains(sep) by {
            assert(rest[i] == parts[i + 1]);
        }
        law_join_then_split(rest, sep);
        text::lemma_split_cons(parts[0], text::join(rest, seq![sep]), sep);
        assert(seq![parts[0]] + rest =~= parts);
    }
}

/// The columns of a line, with tabs between them, are the line.
pub proof fn law_columns_make_the_line(line: Seq<char>, n: nat)
    requires
        n > 0,
    ensures
        text::join(rows::columns(line, n), seq!['\t']) == line,
        0 < rows::columns(line, n).len() <= n,
    decreases n,
{
    if n > 1 {
        match text::split_once(line, '\t') {
            Some(p) => {
                law_columns_make_the_line(p.1, (n - 1) as nat);
                let tail = rows::columns(p.1, (n - 1) as nat);
                let all = rows::columns(line, n);
                text::lemma_join_first(all, seq!['\t']);
                assert(all.drop_first() =~= tail);
                text::lemma_until(line, '\t');
                assert(p.0 + seq!['\t'] + p.1 =~= line);
            },
            None => {},
        }
    }
}

proof fn lemma_nonempty(parts: Seq<Seq<char>>)
    ensures
        forall|i: int|
            0 <= i < route::nonempty(parts).len() ==> (#[trigger] route::nonempty(parts)[i]).len()
                > 0 && parts.contains(route::nonempty(parts)[i]),
    decreases parts.len(),
{
    if parts.len() > 0 {
        let rest = parts.drop_last();
        lemma_nonempty(rest);
        let some = route::nonempty(rest);
        let all = route::nonempty(parts);
        assert forall|i: int| 0 <= i < all.len() implies (#[trigger] all[i]).len() > 0
            && parts.contains(all[i]) by {
            if i < some.len() {
                assert(all[i] == some[i]);
                let k = choose|k: int| 0 <= k < rest.len() && rest[k] == some[i];
                assert(parts[k] == all[i]);
            } else {
                assert(all[i] == parts[parts.len() - 1]);
            }
        }
    }
}

/// The file that a clone asks for is looked for at the very path that the
/// request names, below the Git directory.
pub proof fn law_clone_file_is_the_one_asked_for(
    config: ConfigView,
    req: RequestView,
    candidate: CandidateView,
    name: Seq<char>,
    rest: Seq<Seq<char>>,
)
    requires
        route::route_of(req.path) == (RouteView::Repository { name, rest }),
        session::after_find(config, req, candidate) is Resolve,
    ensures
        session::after_find(config, req, candidate) matches StepView::Resolve(file)
            && repo::repo_named(config.repo_root, name, candidate) matches Some(found) && file.path
            == repo::git_dir_of(found) + rest && file.clone_path == text::join(rest, "/"@),
{
    reveal_strlit("/");
    assert("/"@ =~= seq!['/']);
    let parts = route::parts_of(req.path);
    let all = text::split(req.path, '/');
    lemma_parts_hold_no_separator(req.path, '/');
    lemma_nonempty(all);
    assert forall|i: int| 0 <= i < rest.len() implies !(#[trigger] rest[i]).contains('/') by {
        assert(rest[i] == parts[i + 2]);
        let k = choose|k: int| 0 <= k < all.len() && all[k] == parts[i + 2];
        assert(!all[k].contains('/'));
    }
    law_join_then_split(rest, '/');
}

// ---------------------------------------------------------------------------
// Sorted lists

/// The names come in order.
pub open spec fn in_order<T: Named>(list: Seq<T::V>) -> bool {
    forall|i: int, j: int|
        0 <= i < j < list.len() ==> !text::before(
            T::name_of(#[trigger] list[j]),
            T::name_of(#[trigger] list[i]),
        )
}

proof fn lemma_insert<T: Named>(list: Seq<T::V>, x: T::V)
    requires
        in_order::<T>(list),
    ensures
        in_order::<T>(sorted::insert::<T>(list, x)),
        sorted::insert::<T>(list, x).to_multiset() == list.to_multiset().insert(x),
        forall|y: T::V| #[trigger]
            sorted::insert::<T>(list, x).contains(y) <==> list.contains(y) || y == x,
    decreases list.len(),
{
    broadcast use vstd::seq_lib::group_to_multiset_ensures;

    let all = sorted::insert::<T>(list, x);
    let name = T::name_of(x);
    let n = list.len() - 1;
    if list.len() > 0 && text::before(name, T::name_of(list.last())) {
        let rest = list.drop_last();
        let last = list.last();
        let some = sorted::insert::<T>(rest, x);
        assert(in_order::<T>(rest)) by {
            assert forall|i: int, j: int| 0 <= i < j < rest.len() implies !text::before(
                T::name_of(#[trigger] rest[j]),
                T::name_of(#[trigger] rest[i]),
            ) by {
                assert(rest[i] == list[i] && rest[j] == list[j]);
            }
        }
        lemma_insert::<T>(rest, x);
        assert(all == some.push(last));
        assert(list =~= rest.push(last));
        assert(all.to_multiset() =~= list.to_multiset().insert(x));
        assert forall|i: int, j: int| 0 <= i < j < all.len() implies !text::before(
            T::name_of(#[trigger] all[j]),
            T::name_of(#[trigger] all[i]),
        ) by {
            assert(all[i] == some[i]);
            if j < some.len() {
                assert(all[j] == some[j]);
            } else {
                assert(all[j] == last);
                assert(some.contains(some[i]));
                if rest.contains(some[i]) {
                    let k = choose|k: int| 0 <= k < rest.len() && rest[k] == some[i];
                    assert(list[k] == all[i] && list[n] == last);
                } else if text::before(T::name_of(last), name) {
                    text::lemma_before_transitive(name, T::name_of(last), name);
                    text::lemma_before_irreflexive(name);
                }
            }
        }
    } else {
        assert(all == list.push(x));
        assert(all.to_multiset() =~= list.to_multiset().insert(x));
        assert forall|i: int, j: int| 0 <= i < j < all.len() implies !text::before(
            T::name_of(#[trigger] all[j]),
            T::name_of(#[trigger] all[i]),
        ) by {
            assert(all[i] == list[i]);
            if j < list.len() {
                assert(all[j] == list[j]);
            } else if i < n && text::before(name, T::name_of(list[i])) {
                assert(!text::before(T::name_of(list[n]), T::name_of(list[i])));
                text::lemma_before_total(T::name_of(list[i]), T::name_of(list[n]));
                if T::name_of(list[i]) != T::name_of(list[n]) {
                    text::lemma_before_transitive(name, T::name_of(list[i]), T::name_of(list[n]));
                }
            }
        }
    }
    assert forall|y: T::V| #[trigger] all.contains(y) <==> list.contains(y) || y == x by {
        assert(all.contains(y) <==> all.to_multiset().count(y) > 0);
        assert(list.contains(y) <==> list.to_multiset().count(y) > 0);
    }
}

/// True for the name of a pack that a clone is told of.
pub open spec fn is_pack_name(name: Seq<char>) -> bool {
    text::has_prefix(name, "pack-"@) && text::has_suffix(name, ".pack"@)
}

/// A clone is told of every pack and of nothing else, in the order of their
/// names.
pub proof fn law_packs_are_listed_in_order(files: Seq<FileView>, name: Seq<char>)
    ensures
        in_order::<String>(clone::pack_names(files)),
        clone::pack_names(files).contains(name) <==> is_pack_name(name) && exists|i: int|
            0 <= i < files.len() && (#[trigger] files[i]).name == name,
    decreases files.len(),
{
    if files.len() > 0 {
        let rest = files.drop_last();
        law_packs_are_listed_in_order(rest, name);
        lemma_insert::<String>(clone::pack_names(rest), files.last().name);
        if is_pack_name(name) {
            if exists|i: int| 0 <= i < rest.len() && (#[trigger] rest[i]).name == name {
                let i = choose|i: int| 0 <= i < rest.len() && (#[trigger] rest[i]).name == name;
                assert(files[i].name == name);
            }
            if exists|i: int| 0 <= i < files.len() && (#[trigger] files[i]).name == name {
                let i = choose|i: int| 0 <= i < files.len() && (#[trigger] files[i]).name == name;
                if i < rest.len() {
                    assert(rest[i].name == name);
                }
            }
            if files.last().name == name {
                assert(files[files.len() - 1].name == name);
            }
        }
    }
}

/// A clone is told of each pack as often as there is a file of its name.
pub proof fn law_each_pack_is_listed_once(files: Seq<FileView>)
    ensures
        clone::pack_names(files).to_multiset() == files.filter(
            |f: FileView| is_pack_name(f.name),
        ).map_values(|f: FileView| f.name).to_multiset(),
    decreases files.len(),
{
    broadcast use vstd::seq_lib::group_to_multiset_ensures;

    reveal(Seq::filter);
    let some = files.filter(|f: FileView| is_pack_name(f.name));
    let names = some.map_values(|f: FileView| f.name);
    if files.len() > 0 {
        let rest = files.drop_last();
        let f = files.last();
        let fewer = rest.filter(|f: FileView| is_pack_name(f.name));
        law_each_pack_is_listed_once(rest);
        law_packs_are_listed_in_order(rest, f.name);
        if is_pack_name(f.name) {
            lemma_insert::<String>(clone::pack_names(rest), f.name);
            assert(some == fewer.push(f));
            assert(names =~= fewer.map_values(|f: FileView| f.name).push(f.name));
        } else {
            assert(some == fewer);
        }
    } else {
        assert(names =~= Seq::empty());
        assert(clone::pack_names(files) =~= Seq::empty());
    }
}

/// Sorting puts a list into the order of its names and leaves in it what was
/// there, each as often.
pub proof fn law_sorted_list_is_in_order<T: Named>(list: Seq<T::V>)
    ensures
        in_order::<T>(sorted::by_name::<T>(list)),
        sorted::by_name::<T>(list).to_multiset() == list.to_multiset(),
    decreases list.len(),
{
    broadcast use vstd::seq_lib::group_to_multiset_ensures;

    if list.len() > 0 {
        let rest = list.drop_last();
        law_sorted_list_is_in_order::<T>(rest);
        lemma_insert::<T>(sorted::by_name::<T>(rest), list.last());
        assert(list =~= rest.push(list.last()));
    } else {
        assert(sorted::by_name::<T>(list) =~= list);
    }
}

}
