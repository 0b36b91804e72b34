//! Branches and HEAD: what the files below `refs`, `packed-refs` and HEAD say is
//! what revisions stand for.

use vstd::prelude::*;
use vstd::utf8::*;
use crate::git::object::{self, Kind};
use crate::git::reader;
use crate::git::refs::{self, RefView};
use crate::laws::refs as names;
use crate::laws::texts;
use crate::repo::{FilesView, RefFileView};
use crate::text::{self, Class};

verus! {

/// True for a ref's name: not empty, and without white space.
pub open spec fn is_name(s: Seq<char>) -> bool {
    s.len() > 0 && forall|i: int| 0 <= i < s.len() ==> !texts::blank(#[trigger] s[i])
}

// ---------------------------------------------------------------------------
// `packed-refs`

/// A line of `packed-refs`.
pub enum Line {
    /// A comment.
    Comment {
        /// What follows the number sign.
        text: Seq<char>,
    },
    /// A ref and the object that it names.
    Ref {
        /// The object's id.
        oid: Seq<char>,
        /// The ref's name.
        name: Seq<char>,
    },
    /// What the tag in the line before stands for in the end.
    Peeled {
        /// The object's id.
        oid: Seq<char>,
    },
}

/// The text of a line.
pub open spec fn line_text(line: Line) -> Seq<char> {
    match line {
        Line::Comment { text } => seq!['#'] + text,
        Line::Ref { oid, name } => oid + seq![' '] + name,
        Line::Peeled { oid } => seq!['^'] + oid,
    }
}

/// True when a line can be written.
pub open spec fn writable(line: Line) -> bool {
    match line {
        Line::Comment { text } => !text.contains('\n') && !text.contains('\r'),
        Line::Ref { oid, name } => texts::is_id(oid) && is_name(name),
        Line::Peeled { oid } => texts::is_id(oid),
    }
}

/// The text of `packed-refs`.
pub open spec fn packed_text(list: Seq<Line>) -> Seq<char>
    decreases list.len(),
{
    if list.len() == 0 {
        Seq::empty()
    } else {
        line_text(list[0]) + seq!['\n'] + packed_text(list.drop_first())
    }
}

/// True when a line is that of a ref of that name.
pub open spec fn names(line: Line, name: Seq<char>) -> bool {
    line matches Line::Ref { oid: _, name: n } && n == name
}

/// A line with an id and a name is that ref; comments and peeled tags are none.
pub proof fn law_packed_line_is_read(line: Line)
    requires
        writable(line),
    ensures
        refs::packed_ref(line_text(line)) == (match line {
            Line::Ref { oid, name } => Some(RefView { name, oid }),
            _ => None,
        }),
{
    let s = line_text(line);
    match line {
        Line::Ref { oid, name } => {
            texts::law_object_ids(oid);
            assert forall|i: int| 0 <= i < oid.len() implies !texts::blank(#[trigger] oid[i]) by {
                texts::law_white_space_is_blank(oid[i]);
                assert(text::is_hex_digit(oid[i]));
            }
            texts::law_white_space_is_blank(' ');
            texts::law_word_ends_at_blank(oid, ' ', name);
            texts::law_word_ends_at_blank(name, ' ', name);
            assert(s[0] == oid[0]);
            assert(text::is_hex_digit(oid[0]));
            let words = text::words(s);
            assert(words == seq![oid] + seq![name]);
            assert(words[0] == oid && words[1] == name);
        },
        _ => {},
    }
}

proof fn lemma_one_line(line: Line)
    requires
        writable(line),
    ensures
        !line_text(line).contains('\n'),
        line_text(line).len() > 0 && line_text(line).last() != '\r',
{
    let s = line_text(line);
    texts::law_white_space_is_blank('\n');
    texts::law_white_space_is_blank('\r');
    match line {
        Line::Comment { text } => {
            assert forall|i: int| 0 <= i < s.len() implies s[i] != '\n' && s[i] != '\r' by {
                if i > 0 {
                    assert(s[i] == text[i - 1]);
                    assert(text.contains(text[i - 1]));
                }
            }
        },
        Line::Ref { oid, name } => {
            assert forall|i: int| 0 <= i < s.len() implies s[i] != '\n' && s[i] != '\r' by {
                if i < oid.len() {
                    assert(s[i] == oid[i]);
                } else if i > oid.len() {
                    assert(s[i] == name[i - oid.len() - 1]);
                    assert(!texts::blank(name[i - oid.len() - 1]));
                }
            }
        },
        Line::Peeled { oid } => {
            assert forall|i: int| 0 <= i < s.len() implies s[i] != '\n' && s[i] != '\r' by {
                if i > 0 {
                    assert(s[i] == oid[i - 1]);
                }
            }
        },
    }
}

proof fn lemma_packed_lines(list: Seq<Line>)
    requires
        forall|i: int| 0 <= i < list.len() ==> writable(#[trigger] list[i]),
    ensures
        text::lines(packed_text(list)) == list.map_values(|l: Line| line_text(l)),
    decreases list.len(),
{
    let shown = list.map_values(|l: Line| line_text(l));
    if list.len() == 0 {
        assert(shown =~= Seq::empty());
        texts::law_line_ends(Seq::empty(), Seq::empty());
    } else {
        let rest = list.drop_first();
        assert forall|i: int| 0 <= i < rest.len() implies writable(#[trigger] rest[i]) by {
            assert(rest[i] == list[i + 1]);
        }
        assert(writable(list[0]));
        lemma_one_line(list[0]);
        lemma_packed_lines(rest);
        texts::law_line_ends(line_text(list[0]), packed_text(rest));
        assert(shown =~= seq![line_text(list[0])] + rest.map_values(|l: Line| line_text(l)));
    }
}

/// The refs are those of the files below `refs` and those that a line of
/// `packed-refs` names, all of them and no others.
pub proof fn law_packed_refs_are_listed(files: FilesView, list: Seq<Line>, name: Seq<char>)
    requires
        files.packed_refs == Some(packed_text(list)),
        forall|i: int| 0 <= i < list.len() ==> writable(#[trigger] list[i]),
    ensures
        refs::all_refs(files).contains_key(name) <==> refs::loose_refs(files.refs).contains_key(
            name,
        ) || exists|k: int| 0 <= k < list.len() && names(#[trigger] list[k], name),
{
    let known = refs::loose_refs(files.refs);
    let lines = list.map_values(|l: Line| line_text(l));
    lemma_packed_lines(list);
    assert forall|j: int| 0 <= j < lines.len() implies (refs::packed_ref(
        #[trigger] lines[j],
    ) matches Some(x) ==> names(list[j], x.name)) by {
        assert(writable(list[j]));
        law_packed_line_is_read(list[j]);
    }
    if known.contains_key(name) {
        names::law_file_takes_precedence(files, name);
    } else if exists|k: int| 0 <= k < list.len() && names(#[trigger] list[k], name) {
        let k = lemma_first_of_name(list, name);
        law_packed_ref_stands_for_its_object(files, list, k);
    } else {
        names::lemma_absent(known, lines, name);
    }
}

proof fn lemma_first_of_name(list: Seq<Line>, name: Seq<char>) -> (k: int)
    requires
        exists|k: int| 0 <= k < list.len() && names(#[trigger] list[k], name),
    ensures
        0 <= k < list.len(),
        names(list[k], name),
        forall|j: int| 0 <= j < k ==> !names(#[trigger] list[j], name),
    decreases list.len(),
{
    if names(list[0], name) {
        0
    } else {
        let rest = list.drop_first();
        let k = choose|k: int| 0 <= k < list.len() && names(#[trigger] list[k], name);
        assert(rest[k - 1] == list[k]);
        let n = lemma_first_of_name(rest, name);
        assert forall|j: int| 0 <= j < n + 1 implies !names(#[trigger] list[j], name) by {
            if j > 0 {
                assert(rest[j - 1] == list[j]);
            }
        }
        n + 1
    }
}

/// A ref without a file of its own stands for the object beside its name in
/// `packed-refs`.
pub proof fn law_packed_ref_stands_for_its_object(files: FilesView, list: Seq<Line>, k: int)
    requires
        files.packed_refs == Some(packed_text(list)),
        forall|i: int| 0 <= i < list.len() ==> writable(#[trigger] list[i]),
        0 <= k < list.len(),
        list[k] is Ref,
        !refs::loose_refs(files.refs).contains_key(list[k]->name),
        forall|j: int| 0 <= j < k ==> !names(#[trigger] list[j], list[k]->name),
    ensures
        refs::all_refs(files).contains_key(list[k]->name),
        refs::all_refs(files)[list[k]->name] == list[k]->Ref_oid,
{
    let lines = list.map_values(|l: Line| line_text(l));
    lemma_packed_lines(list);
    assert(writable(list[k]));
    law_packed_line_is_read(list[k]);
    let r = RefView { name: list[k]->name, oid: list[k]->Ref_oid };
    assert forall|j: int| 0 <= j < k implies (refs::packed_ref(#[trigger] lines[j]) matches Some(
        x,
    ) ==> x.name != r.name) by {
        assert(writable(list[j]));
        law_packed_line_is_read(list[j]);
        assert(!names(list[j], r.name));
    }
    names::lemma_new_name(refs::loose_refs(files.refs), lines, k, r);
}

// ---------------------------------------------------------------------------
// Files below `refs`

/// The name of the ref in the file at a path below `refs`.
pub open spec fn full_name(path: Seq<Seq<char>>) -> Seq<char> {
    text::join(seq!["refs"@] + path, "/"@)
}

/// A ref is named after the path of its file, from `refs` on.
pub proof fn law_ref_is_named_after_its_path(path: Seq<Seq<char>>)
    ensures
        refs::ref_name(path) == full_name(path),
    decreases path.len(),
{
    let all = seq!["refs"@] + path;
    if path.len() == 0 {
        assert(all =~= seq!["refs"@]);
    } else {
        law_ref_is_named_after_its_path(path.drop_last());
        assert(all.drop_last() =~= seq!["refs"@] + path.drop_last());
        assert(all.last() == path.last());
    }
}

/// True when a file below `refs` holds that id, with white space around it.
pub open spec fn holds_id(file: RefFileView, oid: Seq<char>) -> bool {
    &&& texts::is_id(oid)
    &&& exists|start: Seq<char>, end: Seq<char>|
        texts::all_blank(start) && texts::all_blank(end) && file.text == #[trigger] (start + oid
            + end)
}

/// A file below `refs` that holds an id makes the ref that is named after its path
/// stand for that id.
pub proof fn law_ref_file_is_read(files: FilesView, k: int, oid: Seq<char>)
    requires
        0 <= k < files.refs.len(),
        holds_id(files.refs[k], oid),
        forall|j: int|
            k < j < files.refs.len() ==> full_name((#[trigger] files.refs[j]).path) != full_name(
                files.refs[k].path,
            ),
    ensures
        refs::all_refs(files).contains_key(full_name(files.refs[k].path)),
        refs::all_refs(files)[full_name(files.refs[k].path)] == oid,
{
    lemma_loose(files.refs, k, oid);
    names::law_file_takes_precedence(files, full_name(files.refs[k].path));
}

proof fn lemma_held_id(file: RefFileView, oid: Seq<char>)
    requires
        holds_id(file, oid),
    ensures
        text::trim(file.text, Class::Space) == oid,
        refs::hex_oid(oid),
{
    let (start, end) = choose|start: Seq<char>, end: Seq<char>|
        texts::all_blank(start) && texts::all_blank(end) && file.text == #[trigger] (start + oid
            + end);
    texts::law_object_ids(oid);
    assert(text::is_hex_digit(oid[0]) && text::is_hex_digit(oid[39]));
    texts::law_white_space_is_blank(oid[0]);
    texts::law_white_space_is_blank(oid[39]);
    texts::law_blanks_around_are_taken_off(start, oid, end);
}

/// A file that holds no id makes no ref.
pub proof fn law_file_without_id_is_no_ref(list: Seq<RefFileView>, name: Seq<char>)
    requires
        forall|j: int, oid: Seq<char>|
            #![trigger holds_id(list[j], oid)]
            0 <= j < list.len() && full_name(list[j].path) == name ==> !holds_id(list[j], oid),
    ensures
        !refs::loose_refs(list).contains_key(name),
    decreases list.len(),
{
    if list.len() > 0 {
        let rest = list.drop_last();
        let n = list.len() - 1;
        let oid = text::trim(list[n].text, Class::Space);
        law_ref_is_named_after_its_path(list[n].path);
        assert forall|j: int, oid: Seq<char>|
            #![trigger holds_id(rest[j], oid)]
            0 <= j < rest.len() && full_name(rest[j].path) == name implies !holds_id(
            rest[j],
            oid,
        ) by {
            assert(rest[j] == list[j]);
            assert(!holds_id(list[j], oid));
        }
        law_file_without_id_is_no_ref(rest, name);
        texts::law_trimming_takes_off_blanks(list[n].text);
        texts::law_object_ids(oid);
        if refs::hex_oid(oid) {
            assert(holds_id(list[n], oid));
        }
    }
}

proof fn lemma_loose(list: Seq<RefFileView>, k: int, oid: Seq<char>)
    requires
        0 <= k < list.len(),
        holds_id(list[k], oid),
        forall|j: int|
            k < j < list.len() ==> full_name((#[trigger] list[j]).path) != full_name(list[k].path),
    ensures
        refs::loose_refs(list).contains_key(full_name(list[k].path)),
        refs::loose_refs(list)[full_name(list[k].path)] == oid,
    decreases list.len(),
{
    law_ref_is_named_after_its_path(list.last().path);
    if k == list.len() - 1 {
        lemma_held_id(list[k], oid);
    } else {
        let rest = list.drop_last();
        assert(rest[k] == list[k]);
        assert forall|j: int| k < j < rest.len() implies full_name((#[trigger] rest[j]).path)
            != full_name(rest[k].path) by {
            assert(rest[j] == list[j]);
        }
        lemma_loose(rest, k, oid);
        assert(full_name(list[list.len() - 1].path) != full_name(list[k].path));
    }
}

/// A name that no file below `refs` has is that of no file.
pub proof fn law_no_ref_without_file(list: Seq<RefFileView>, name: Seq<char>)
    requires
        forall|j: int| 0 <= j < list.len() ==> full_name((#[trigger] list[j]).path) != name,
    ensures
        !refs::loose_refs(list).contains_key(name),
    decreases list.len(),
{
    if list.len() > 0 {
        let rest = list.drop_last();
        law_ref_is_named_after_its_path(list.last().path);
        assert(full_name(list[list.len() - 1].path) != name);
        assert forall|j: int| 0 <= j < rest.len() implies full_name((#[trigger] rest[j]).path)
            != name by {
            assert(rest[j] == list[j]);
        }
        law_no_ref_without_file(rest, name);
    }
}

/// A line of `packed-refs` that does not start with an id and a name is no ref.
pub proof fn law_odd_packed_line_is_no_ref(line: Seq<char>)
    ensures
        line.len() == 0 ==> refs::packed_ref(line) is None,
        line.len() > 0 && (line[0] == '#' || line[0] == '^') ==> refs::packed_ref(line) is None,
        text::words(line).len() < 2 ==> refs::packed_ref(line) is None,
        text::words(line).len() > 0 && !texts::is_id(text::words(line)[0]) ==> refs::packed_ref(
            line,
        ) is None,
{
    if text::words(line).len() > 0 {
        texts::law_object_ids(text::words(line)[0]);
    }
}

// ---------------------------------------------------------------------------
// Revisions

/// What a revision stands for where it is the id of an object or the whole name of
/// a ref.
pub proof fn law_ids_and_names_are_revisions(files: FilesView, rev: Seq<char>)
    ensures
        texts::is_id(rev) ==> reader::rev_target(files, rev) == Some(text::lower(rev)),
        !texts::is_id(rev) && rev != "HEAD"@ && refs::all_refs(files).contains_key(rev)
            ==> reader::rev_target(files, rev) == Some(text::lower(refs::all_refs(files)[rev])),
{
    texts::law_object_ids(rev);
}

/// True when HEAD names a ref, with white space after it.
pub open spec fn head_names(files: FilesView, name: Seq<char>) -> bool {
    &&& name.len() > 0
    &&& !texts::blank(name[0])
    &&& !texts::blank(name.last())
    &&& exists|end: Seq<char>|
        texts::all_blank(end) && files.head == Some(
            encode_utf8(#[trigger] ("ref: "@ + name + end)),
        )
}

/// HEAD stands for what the ref that it names stands for; for nothing when there
/// is no such ref.
pub proof fn law_head_follows_its_ref(files: FilesView, name: Seq<char>)
    requires
        head_names(files, name),
    ensures
        reader::rev_target(files, "HEAD"@) == (if refs::all_refs(files).contains_key(name) {
            Some(text::lower(refs::all_refs(files)[name]))
        } else {
            None
        }),
{
    reveal_strlit("ref: ");
    reveal_strlit("HEAD");
    let end = choose|end: Seq<char>|
        texts::all_blank(end) && files.head == Some(
            encode_utf8(#[trigger] ("ref: "@ + name + end)),
        );
    let head = "ref: "@ + name + end;
    let none: Seq<char> = Seq::empty();
    encode_utf8_valid_utf8(head);
    encode_utf8_decode_utf8(head);
    assert(head.take(5) =~= "ref: "@);
    assert(head.skip(5) =~= none + name + end);
    texts::law_blanks_around_are_taken_off(none, name, end);
}

/// Where HEAD holds an id, with white space after it, it stands for that id.
pub proof fn law_detached_head_is_its_id(files: FilesView, oid: Seq<char>, end: Seq<char>)
    requires
        texts::is_id(oid),
        texts::all_blank(end),
        files.head == Some(encode_utf8(oid + end)),
    ensures
        reader::rev_target(files, "HEAD"@) == Some(text::lower(oid)),
{
    reveal_strlit("ref: ");
    reveal_strlit("HEAD");
    let head = oid + end;
    let none: Seq<char> = Seq::empty();
    encode_utf8_valid_utf8(head);
    encode_utf8_decode_utf8(head);
    assert(head =~= none + oid + end);
    lemma_held_id(RefFileView { path: Seq::empty(), text: head }, oid);
    assert(text::is_hex_digit(oid[0]));
    if text::has_prefix(head, "ref: "@) {
        assert(head.take(5)[0] == oid[0]);
    }
}

/// HEAD stands for nothing where it is not there, is no text, or holds neither an id
/// nor the name of a ref.
pub proof fn law_odd_head_stands_for_nothing(files: FilesView, head: Seq<char>)
    ensures
        files.head is None ==> reader::rev_target(files, "HEAD"@) is None,
        (files.head matches Some(b) && !valid_utf8(b)) ==> reader::rev_target(files, "HEAD"@)
            is None,
        files.head == Some(encode_utf8(head)) && !"ref: "@.is_prefix_of(head) && (forall|
            oid: Seq<char>,
        |
            !holds_id(RefFileView { path: Seq::empty(), text: head }, oid)) ==> reader::rev_target(
            files,
            "HEAD"@,
        ) is None,
{
    reveal_strlit("HEAD");
    assert("HEAD"@.len() == 4);
    encode_utf8_valid_utf8(head);
    encode_utf8_decode_utf8(head);
    let p = "ref: "@;
    if text::has_prefix(head, p) {
        assert(p =~= head.subrange(0, p.len() as int));
    }
    let oid = text::trim(head, Class::Space);
    texts::law_trimming_takes_off_blanks(head);
    texts::law_object_ids(oid);
    if refs::hex_oid(oid) {
        assert(holds_id(RefFileView { path: Seq::empty(), text: head }, oid));
    }
}

/// A revision that is no id, not HEAD, and no name of a ref or a branch stands for
/// nothing.
pub proof fn law_unknown_revision_stands_for_nothing(files: FilesView, rev: Seq<char>)
    requires
        !texts::is_id(rev),
        rev != "HEAD"@,
        !refs::all_refs(files).contains_key(rev),
        !refs::all_refs(files).contains_key("refs/heads/"@ + rev),
    ensures
        reader::rev_target(files, rev) is None,
        reader::commit_at(files, rev) is None,
{
    texts::law_object_ids(rev);
}

/// What a revision stands for is shown as a commit if it is one, and not otherwise.
pub proof fn law_only_commits_are_commits(files: FilesView, rev: Seq<char>, oid: Seq<char>)
    requires
        reader::rev_target(files, rev) == Some(oid),
    ensures
        object::object(files, oid) is Err ==> reader::commit_at(files, rev) is None,
        (object::object(files, oid) matches Ok(o) && o.kind != Kind::Commit) ==> reader::commit_at(
            files,
            rev,
        ) is None,
        (object::object(files, oid) matches Ok(o) && o.kind == Kind::Commit) ==> (
        reader::commit_at(files, rev) matches Some(c) && c.id == oid),
{
}

}
