//! Refs: files first, then `packed-refs`.

use vstd::prelude::*;
use vstd::utf8::*;
use crate::git::refs::{self, RefView};
use crate::git::reader;
use crate::laws::commits;
use crate::repo::{FilesView, RefFileView};
use crate::text::{self, Class};

verus! {

/// Every ref stands for an object id.
pub proof fn law_refs_name_object_ids(files: FilesView, name: Seq<char>)
    requires
        refs::all_refs(files).contains_key(name),
    ensures
        refs::hex_oid(refs::all_refs(files)[name]),
{
    lemma_loose_ids(files.refs);
    match files.packed_refs {
        None => {},
        Some(t) => lemma_packed_ids(refs::loose_refs(files.refs), text::lines(t)),
    }
}

proof fn lemma_loose_ids(list: Seq<RefFileView>)
    ensures
        forall|n: Seq<char>| #[trigger]
            refs::loose_refs(list).contains_key(n) ==> refs::hex_oid(refs::loose_refs(list)[n]),
    decreases list.len(),
{
    if list.len() > 0 {
        lemma_loose_ids(list.drop_last());
        let rest = refs::loose_refs(list.drop_last());
        assert forall|n: Seq<char>| #[trigger]
            refs::loose_refs(list).contains_key(n) implies refs::hex_oid(
            refs::loose_refs(list)[n],
        ) by {
            if rest.contains_key(n) {
                assert(refs::hex_oid(rest[n]));
            }
        }
    }
}

proof fn lemma_packed_ids(known: Map<Seq<char>, Seq<char>>, lines: Seq<Seq<char>>)
    requires
        forall|n: Seq<char>| #[trigger] known.contains_key(n) ==> refs::hex_oid(known[n]),
    ensures
        forall|n: Seq<char>| #[trigger]
            refs::with_packed(known, lines).contains_key(n) ==> refs::hex_oid(
                refs::with_packed(known, lines)[n],
            ),
    decreases lines.len(),
{
    if lines.len() > 0 {
        lemma_packed_ids(known, lines.drop_last());
        let rest = refs::with_packed(known, lines.drop_last());
        assert forall|n: Seq<char>| #[trigger]
            refs::with_packed(known, lines).contains_key(n) implies refs::hex_oid(
            refs::with_packed(known, lines)[n],
        ) by {
            if rest.contains_key(n) {
                assert(refs::hex_oid(rest[n]));
            }
        }
    }
}

proof fn lemma_known_is_kept(
    known: Map<Seq<char>, Seq<char>>,
    lines: Seq<Seq<char>>,
    name: Seq<char>,
)
    requires
        known.contains_key(name),
    ensures
        refs::with_packed(known, lines).contains_key(name),
        refs::with_packed(known, lines)[name] == known[name],
    decreases lines.len(),
{
    if lines.len() > 0 {
        lemma_known_is_kept(known, lines.drop_last(), name);
    }
}

/// A ref that has a file of its own stands for what the file says, whatever
/// `packed-refs` holds.
pub proof fn law_file_takes_precedence(files: FilesView, name: Seq<char>)
    requires
        refs::loose_refs(files.refs).contains_key(name),
    ensures
        refs::all_refs(files).contains_key(name),
        refs::all_refs(files)[name] == refs::loose_refs(files.refs)[name],
{
    match files.packed_refs {
        None => {},
        Some(t) => lemma_known_is_kept(refs::loose_refs(files.refs), text::lines(t), name),
    }
}

pub proof fn lemma_new_name(
    known: Map<Seq<char>, Seq<char>>,
    lines: Seq<Seq<char>>,
    k: int,
    r: RefView,
)
    requires
        !known.contains_key(r.name),
        0 <= k < lines.len(),
        refs::packed_ref(lines[k]) == Some(r),
        forall|j: int|
            0 <= j < k ==> (refs::packed_ref(#[trigger] lines[j]) matches Some(x) ==> x.name
                != r.name),
    ensures
        refs::with_packed(known, lines).contains_key(r.name),
        refs::with_packed(known, lines)[r.name] == r.oid,
    decreases lines.len(),
{
    let rest = lines.drop_last();
    if k < rest.len() {
        assert(rest[k] == lines[k]);
        assert forall|j: int| 0 <= j < k implies (refs::packed_ref(#[trigger] rest[j]) matches Some(
            x,
        ) ==> x.name != r.name) by {
            assert(rest[j] == lines[j]);
        }
        lemma_new_name(known, rest, k, r);
    } else {
        lemma_absent(known, rest, r.name);
    }
}

pub proof fn lemma_absent(known: Map<Seq<char>, Seq<char>>, lines: Seq<Seq<char>>, name: Seq<char>)
    requires
        !known.contains_key(name),
        forall|j: int|
            0 <= j < lines.len() ==> (refs::packed_ref(#[trigger] lines[j]) matches Some(x)
                ==> x.name != name),
    ensures
        !refs::with_packed(known, lines).contains_key(name),
    decreases lines.len(),
{
    if lines.len() > 0 {
        let rest = lines.drop_last();
        assert forall|j: int| 0 <= j < rest.len() implies (refs::packed_ref(
            #[trigger] rest[j],
        ) matches Some(x) ==> x.name != name) by {
            assert(rest[j] == lines[j]);
        }
        lemma_absent(known, rest, name);
        assert(lines[lines.len() - 1] == lines.last());
    }
}

/// A ref without a file of its own stands for what the first line of
/// `packed-refs` with its name says.
pub proof fn law_packed_ref_counts_without_file(
    files: FilesView,
    packed: Seq<char>,
    k: int,
    r: RefView,
)
    requires
        files.packed_refs == Some(packed),
        !refs::loose_refs(files.refs).contains_key(r.name),
        0 <= k < text::lines(packed).len(),
        refs::packed_ref(text::lines(packed)[k]) == Some(r),
        forall|j: int|
            0 <= j < k ==> (refs::packed_ref(#[trigger] text::lines(packed)[j]) matches Some(x)
                ==> x.name != r.name),
    ensures
        refs::all_refs(files).contains_key(r.name),
        refs::all_refs(files)[r.name] == r.oid,
{
    lemma_new_name(refs::loose_refs(files.refs), text::lines(packed), k, r);
}

/// The branches are the refs below `refs/heads/`, every one of them and nothing
/// else.
pub proof fn law_branches_are_refs_below_heads(list: Seq<RefView>, r: RefView)
    ensures
        reader::branches_in(list).contains(r) <==> list.contains(r) && text::has_prefix(
            r.name,
            "refs/heads/"@,
        ),
    decreases list.len(),
{
    if list.len() > 0 {
        let rest = list.drop_last();
        let some = reader::branches_in(rest);
        let all = reader::branches_in(list);
        law_branches_are_refs_below_heads(rest, r);
        if all.contains(r) {
            let i = choose|i: int| 0 <= i < all.len() && all[i] == r;
            if i < some.len() {
                assert(some[i] == r);
                let k = choose|k: int| 0 <= k < rest.len() && rest[k] == r;
                assert(list[k] == r);
            } else {
                assert(list[list.len() - 1] == r);
            }
        }
        if list.contains(r) && text::has_prefix(r.name, "refs/heads/"@) {
            let k = choose|k: int| 0 <= k < list.len() && list[k] == r;
            if k < rest.len() {
                assert(rest[k] == r);
                let i = choose|i: int| 0 <= i < some.len() && some[i] == r;
                assert(all[i] == r);
            } else {
                assert(all[all.len() - 1] == r);
            }
        }
    }
}

/// A branch can be asked for by its short name, unless that is itself the name
/// of a ref, an object id or `HEAD`.
pub proof fn law_branch_is_found_by_short_name(files: FilesView, short: Seq<char>)
    requires
        refs::all_refs(files).contains_key("refs/heads/"@ + short),
        !refs::all_refs(files).contains_key(short),
        !refs::hex_oid(short),
        short != "HEAD"@,
    ensures
        reader::rev_target(files, short) == Some(
            text::lower(refs::all_refs(files)["refs/heads/"@ + short]),
        ),
{
}

/// True for an object id in small letters.
pub open spec fn small_oid(s: Seq<char>) -> bool {
    refs::hex_oid(s) && text::lower(s) == s
}

proof fn lemma_lower_oid(s: Seq<char>)
    requires
        refs::hex_oid(s),
    ensures
        small_oid(text::lower(s)),
{
    let t = text::lower(s);
    assert forall|i: int| 0 <= i < t.len() implies text::is_hex_digit(#[trigger] t[i]) by {
        assert(text::is_hex_digit(s[i]));
    }
    assert(text::lower(t) =~= t);
}

/// Whatever a revision is called and however its id was written down, it stands
/// for an id in small letters.
pub proof fn law_revision_is_id_in_small_letters(files: FilesView, rev: Seq<char>)
    requires
        reader::rev_target(files, rev) is Some,
    ensures
        small_oid(reader::rev_target(files, rev)->0),
{
    assert forall|name: Seq<char>| refs::all_refs(files).contains_key(name) implies small_oid(
        text::lower(#[trigger] refs::all_refs(files)[name]),
    ) by {
        law_refs_name_object_ids(files, name);
        lemma_lower_oid(refs::all_refs(files)[name]);
    }
    if refs::hex_oid(rev) {
        lemma_lower_oid(rev);
    } else if rev == "HEAD"@ {
        let head = decode_utf8(files.head->0);
        let oid = text::trim(head, Class::Space);
        if refs::hex_oid(oid) {
            lemma_lower_oid(oid);
        }
    }
}

/// A commit is shown under its id in small letters.
pub proof fn law_commit_has_id_in_small_letters(files: FilesView, rev: Seq<char>)
    requires
        reader::commit_at(files, rev) is Some,
    ensures
        small_oid(reader::commit_at(files, rev)->0.id),
{
    law_revision_is_id_in_small_letters(files, rev);
}

/// The line of a ref in the list that a clone reads.
pub open spec fn ref_line(r: RefView) -> Seq<char> {
    r.oid + seq!['\t'] + r.name
}

/// The list of refs that a clone reads, as text.
pub open spec fn ref_text(list: Seq<RefView>) -> Seq<char>
    decreases list.len(),
{
    if list.len() == 0 {
        Seq::empty()
    } else {
        ref_text(list.drop_last()) + (ref_line(list.last()) + seq!['\n'])
    }
}

proof fn lemma_info_text(list: Seq<RefView>)
    ensures
        reader::info_lines(list) == encode_utf8(ref_text(list)),
    decreases list.len(),
{
    if list.len() == 0 {
        assert(reader::info_lines(list) =~= encode_utf8(ref_text(list)));
    } else {
        let r = list.last();
        lemma_info_text(list.drop_last());
        text::lemma_encode_append(ref_text(list.drop_last()), ref_line(r) + seq!['\n']);
        text::lemma_encode_append(ref_line(r), seq!['\n']);
        text::lemma_encode_append(r.oid + seq!['\t'], r.name);
        text::lemma_encode_append(r.oid, seq!['\t']);
        text::lemma_encode_ascii(0x09);
        text::lemma_encode_ascii(0x0a);
        assert(0x09u8 as char == '\t' && 0x0au8 as char == '\n');
        assert(reader::info_lines(list) =~= encode_utf8(ref_text(list)));
    }
}

proof fn lemma_text_first(list: Seq<RefView>)
    requires
        list.len() > 0,
    ensures
        ref_text(list) == ref_line(list[0]) + seq!['\n'] + ref_text(list.drop_first()),
    decreases list.len(),
{
    let first = ref_line(list[0]) + seq!['\n'];
    if list.len() == 1 {
        assert(list.drop_last() =~= Seq::empty());
        assert(list.drop_first() =~= Seq::empty());
        assert(ref_text(list.drop_last()) =~= Seq::empty());
        assert(ref_text(list) =~= first);
        assert(first + ref_text(list.drop_first()) =~= first);
    } else {
        lemma_text_first(list.drop_last());
        assert(list.drop_last().drop_first() =~= list.drop_first().drop_last());
        assert(ref_text(list) =~= first + ref_text(list.drop_first()));
    }
}

proof fn lemma_text_lines(list: Seq<RefView>)
    requires
        forall|i: int|
            0 <= i < list.len() ==> commits::one_line((#[trigger] list[i]).name)
                && commits::one_line(list[i].oid),
    ensures
        text::lines(ref_text(list)) == list.map_values(|r: RefView| ref_line(r)),
    decreases list.len(),
{
    let shown = list.map_values(|r: RefView| ref_line(r));
    if list.len() == 0 {
        assert(shown =~= Seq::empty());
    } else {
        let rest = list.drop_first();
        assert(commits::one_line(list[0].name) && commits::one_line(list[0].oid));
        lemma_text_first(list);
        assert forall|i: int| 0 <= i < rest.len() implies commits::one_line(
            (#[trigger] rest[i]).name,
        ) && commits::one_line(rest[i].oid) by {
            assert(rest[i] == list[i + 1]);
        }
        lemma_text_lines(rest);
        commits::lemma_one_line(list[0].oid, seq!['\t']);
        commits::lemma_one_line(list[0].oid + seq!['\t'], list[0].name);
        commits::lemma_lines_cons(ref_line(list[0]), ref_text(rest));
        assert("\n"@ =~= seq!['\n']) by {
            reveal_strlit("\n");
        }
        assert(shown =~= seq![ref_line(list[0])] + rest.map_values(|r: RefView| ref_line(r)));
    }
}

/// The list of refs that a clone reads has a line for each ref, in order: its id,
/// a tab and its name.
pub proof fn law_clone_is_told_every_ref(list: Seq<RefView>)
    requires
        forall|i: int|
            0 <= i < list.len() ==> commits::one_line((#[trigger] list[i]).name)
                && commits::one_line(list[i].oid),
    ensures
        valid_utf8(reader::info_lines(list)),
        text::lines(decode_utf8(reader::info_lines(list))) == list.map_values(
            |r: RefView| ref_line(r),
        ),
{
    lemma_info_text(list);
    lemma_text_lines(list);
    encode_utf8_valid_utf8(ref_text(list));
    encode_utf8_decode_utf8(ref_text(list));
}

// ---------------------------------------------------------------------------
// The list of refs

/// True when there is a sorted list of the refs in a map.
pub open spec fn can_be_listed(m: Map<Seq<char>, Seq<char>>) -> bool {
    exists|list: Seq<RefView>| #[trigger] refs::sorted(list) && refs::ref_map(list) == m
}

proof fn lemma_place(list: Seq<RefView>, name: Seq<char>, k: int) -> (i: int)
    requires
        0 <= k <= list.len(),
        forall|j: int| 0 <= j < k ==> text::before(#[trigger] list[j].name, name),
    ensures
        k <= i <= list.len(),
        forall|j: int| 0 <= j < i ==> text::before(#[trigger] list[j].name, name),
        i < list.len() ==> !text::before(list[i].name, name),
    decreases list.len() - k,
{
    if k < list.len() && text::before(list[k].name, name) {
        lemma_place(list, name, k + 1)
    } else {
        k
    }
}

proof fn lemma_listed_with(m: Map<Seq<char>, Seq<char>>, name: Seq<char>, oid: Seq<char>)
    requires
        can_be_listed(m),
    ensures
        can_be_listed(m.insert(name, oid)),
{
    let a = choose|list: Seq<RefView>| #[trigger] refs::sorted(list) && refs::ref_map(list) == m;
    let i = lemma_place(a, name, 0);
    let x = RefView { name, oid };
    if i < a.len() && a[i].name == name {
        let b = a.update(i, x);
        assert(forall|j: int| 0 <= j < b.len() ==> b[j].name == a[j].name);
        assert(refs::sorted(b));
        refs::lemma_map_update(a, b, i);
    } else {
        let b = a.insert(i, x);
        refs::lemma_map_insert(a, b, i, x);
        assert(refs::sorted(b));
    }
}

proof fn lemma_files_listed(files: Seq<RefFileView>)
    ensures
        can_be_listed(refs::loose_refs(files)),
    decreases files.len(),
{
    if files.len() == 0 {
        let none: Seq<RefView> = Seq::empty();
        assert(refs::sorted(none));
        assert(refs::ref_map(none) =~= refs::loose_refs(files));
    } else {
        lemma_files_listed(files.drop_last());
        let oid = text::trim(files.last().text, Class::Space);
        lemma_listed_with(
            refs::loose_refs(files.drop_last()),
            refs::ref_name(files.last().path),
            oid,
        );
    }
}

proof fn lemma_lines_listed(known: Map<Seq<char>, Seq<char>>, lines: Seq<Seq<char>>)
    requires
        can_be_listed(known),
    ensures
        can_be_listed(refs::with_packed(known, lines)),
    decreases lines.len(),
{
    if lines.len() > 0 {
        lemma_lines_listed(known, lines.drop_last());
        match refs::packed_ref(lines.last()) {
            None => {},
            Some(r) => {
                lemma_listed_with(refs::with_packed(known, lines.drop_last()), r.name, r.oid);
            },
        }
    }
}

/// The list of refs holds every ref of a repository and no other, each once, in the
/// order of their names.
pub proof fn law_refs_are_listed_in_order(files: FilesView, r: RefView)
    ensures
        ({
            let list = refs::listing(refs::all_refs(files));
            &&& list.contains(r) <==> refs::all_refs(files).contains_key(r.name)
                && refs::all_refs(files)[r.name] == r.oid
            &&& forall|i: int, j: int|
                0 <= i < j < list.len() ==> text::before(
                    (#[trigger] list[i]).name,
                    (#[trigger] list[j]).name,
                )
        }),
{
    let m = refs::all_refs(files);
    let list = refs::listing(m);
    lemma_files_listed(files.refs);
    match files.packed_refs {
        None => {},
        Some(t) => lemma_lines_listed(refs::loose_refs(files.refs), text::lines(t)),
    }
    assert(can_be_listed(m));
    assert(refs::sorted(list) && refs::ref_map(list) == m);
    refs::lemma_ref_map(list);
    if m.contains_key(r.name) && m[r.name] == r.oid {
        let i = choose|i: int| 0 <= i < list.len() && (#[trigger] list[i]).name == r.name;
        assert(list[i].oid == r.oid);
        assert(list[i] == r);
    }
    if list.contains(r) {
        let i = choose|i: int| 0 <= i < list.len() && list[i] == r;
        assert(m.contains_key(list[i].name));
    }
}

}
