//! Objects and trees: what is stored is what is read.

use vstd::prelude::*;
use vstd::utf8::*;
use crate::git::bytes::ObjectError;
use crate::git::commit::CommitView;
use crate::git::object::{self, Kind, ObjectView};
use crate::git::reader;
use crate::git::tree::{self, EntryView};
use crate::laws::{commits, encodings};
use crate::repo::{self, FilesView};
use crate::{numbers, text};

verus! {

// ---------------------------------------------------------------------------
// Loose objects

/// How a kind is named in an object's header.
pub open spec fn kind_name(kind: Kind) -> Seq<char> {
    match kind {
        Kind::Commit => "commit"@,
        Kind::Tree => "tree"@,
        Kind::Blob => "blob"@,
        Kind::Tag => "tag"@,
    }
}

/// An object as it is stored before it is compressed.
pub open spec fn object_bytes(kind: Kind, body: Seq<u8>) -> Seq<u8> {
    encode_utf8(kind_name(kind) + " "@ + numbers::decimal(body.len())) + seq![0u8] + body
}

proof fn lemma_kind_name(kind: Kind)
    ensures
        object::kind_named(kind_name(kind)) == Some(kind),
        !kind_name(kind).contains(' '),
        !kind_name(kind).contains('\0'),
{
    reveal_strlit("commit");
    reveal_strlit("tree");
    reveal_strlit("blob");
    reveal_strlit("tag");
    assert("commit"@.len() == 6 && "tree"@.len() == 4 && "blob"@.len() == 4 && "tag"@.len() == 3);
    assert("tree"@[0] == 't' && "blob"@[0] == 'b');
}

/// An object's bytes are read back as an object of the same kind and contents.
pub proof fn law_object_round_trip(kind: Kind, body: Seq<u8>)
    ensures
        object::payload(object_bytes(kind, body)) == Ok::<ObjectView, ObjectError>(
            ObjectView { kind, data: body },
        ),
{
    lemma_kind_name(kind);
    reveal_strlit(" ");
    let name = kind_name(kind);
    let size = numbers::decimal(body.len());
    let words = name + " "@ + size;
    let header = encode_utf8(words);
    let data = object_bytes(kind, body);
    encodings::law_decimal_round_trip(body.len());
    assert forall|i: int| 0 <= i < words.len() implies words[i] != '\0' by {
        if i < name.len() {
            assert(words[i] == name[i]);
            assert(name.contains(name[i]));
        } else if i > name.len() {
            assert(words[i] == size[i - name.len() - 1]);
            assert(text::is_digit(size[i - name.len() - 1]));
        }
    }
    assert(!words.contains(0u8 as char)) by {
        assert(0u8 as char == '\0');
    }
    text::lemma_encode_has_no(words, 0);
    let nul = header.len() as int;
    assert(data.skip(0) =~= data);
    assert(data[nul] == 0);
    assert forall|j: int| 0 <= j < nul implies data[j] != 0 by {
        assert(data[j] == header[j]);
        assert(header.contains(header[j]));
    }
    text::lemma_until_is(data, 0u8, nul);
    assert(data.take(nul) =~= header);
    encode_utf8_valid_utf8(words);
    encode_utf8_decode_utf8(words);
    assert forall|j: int| 0 <= j < name.len() implies words[j] != ' ' by {
        assert(words[j] == name[j]);
        assert(name.contains(name[j]));
    }
    assert(words[name.len() as int] == ' ');
    text::lemma_until_is(words, ' ', name.len() as int);
    assert(words.take(name.len() as int) =~= name);
    assert(data.skip(nul + 1) =~= body);
}

/// A loose object is read back as it was stored, whatever the packs hold.
pub proof fn law_loose_object_is_read(
    files: FilesView,
    oid: Seq<char>,
    stored: Seq<u8>,
    kind: Kind,
    body: Seq<u8>,
)
    requires
        encode_utf8(oid).len() == 40,
        repo::stored(files.loose, oid) == Some(stored),
        object::zlib_inflate(stored) == Some(object_bytes(kind, body)),
    ensures
        object::object(files, oid) == Ok::<ObjectView, ObjectError>(
            ObjectView { kind, data: body },
        ),
{
    law_object_round_trip(kind, body);
}

// ---------------------------------------------------------------------------
// Trees

/// An entry of a tree as it is stored.
pub struct Item {
    /// The mode.
    pub mode: Seq<char>,
    /// The name.
    pub name: Seq<char>,
    /// The bytes of the object id.
    pub id: Seq<u8>,
}

/// True when an entry can be stored: its mode holds no space, its name no NUL
/// character, and its id has twenty bytes.
pub open spec fn storable(item: Item) -> bool {
    !item.mode.contains(' ') && !item.name.contains('\0') && item.id.len() == 20
}

/// The bytes of an entry.
pub open spec fn item_bytes(item: Item) -> Seq<u8> {
    encode_utf8(item.mode) + seq![0x20u8] + encode_utf8(item.name) + seq![0u8] + item.id
}

/// The bytes of a tree.
pub open spec fn tree_bytes(items: Seq<Item>) -> Seq<u8>
    decreases items.len(),
{
    if items.len() == 0 {
        Seq::empty()
    } else {
        item_bytes(items[0]) + tree_bytes(items.drop_first())
    }
}

/// What an entry is read as.
pub open spec fn item_entry(item: Item) -> EntryView {
    EntryView {
        mode: item.mode,
        kind: tree::mode_kind(item.mode),
        oid: numbers::to_hex(item.id),
        name: item.name,
    }
}

/// An entry is read back, wherever it stands.
pub proof fn lemma_item(before: Seq<u8>, item: Item, after: Seq<u8>)
    requires
        storable(item),
    ensures
        tree::entry_at(before + item_bytes(item) + after, before.len() as int) == Ok::<
            (EntryView, int),
            ObjectError,
        >((item_entry(item), (before.len() + item_bytes(item).len()) as int)),
{
    let mode = encode_utf8(item.mode);
    let name = encode_utf8(item.name);
    let data = before + item_bytes(item) + after;
    let pos = before.len() as int;
    let mode_end = pos + mode.len();
    let name_end = mode_end + 1 + name.len();
    assert(0x20u8 as char == ' ');
    assert(0u8 as char == '\0');
    text::lemma_encode_has_no(item.mode, 0x20);
    text::lemma_encode_has_no(item.name, 0);
    let rest = data.skip(pos);
    assert forall|j: int| 0 <= j < mode.len() implies rest[j] != 0x20 by {
        assert(rest[j] == mode[j]);
        assert(mode.contains(mode[j]));
    }
    assert(rest[mode.len() as int] == 0x20);
    text::lemma_until_is(rest, 0x20u8, mode.len() as int);
    let tail = data.skip(mode_end + 1);
    assert forall|j: int| 0 <= j < name.len() implies tail[j] != 0 by {
        assert(tail[j] == name[j]);
        assert(name.contains(name[j]));
    }
    assert(tail[name.len() as int] == 0);
    text::lemma_until_is(tail, 0u8, name.len() as int);
    assert(data.subrange(pos, mode_end) =~= mode);
    assert(data.subrange(mode_end + 1, name_end) =~= name);
    assert(data.subrange(name_end + 1, name_end + 21) =~= item.id);
    encode_utf8_valid_utf8(item.mode);
    encode_utf8_decode_utf8(item.mode);
    encode_utf8_valid_utf8(item.name);
    encode_utf8_decode_utf8(item.name);
}

proof fn lemma_tree(before: Seq<u8>, items: Seq<Item>)
    requires
        forall|i: int| 0 <= i < items.len() ==> storable(#[trigger] items[i]),
    ensures
        tree::entries_from(before + tree_bytes(items), before.len() as int) == Ok::<
            Seq<EntryView>,
            ObjectError,
        >(items.map_values(|item: Item| item_entry(item))),
    decreases items.len(),
{
    let views = items.map_values(|item: Item| item_entry(item));
    let data = before + tree_bytes(items);
    if items.len() == 0 {
        assert(views =~= Seq::empty());
    } else {
        let first = items[0];
        let rest = items.drop_first();
        let further = before + item_bytes(first);
        assert(storable(first));
        assert(data =~= before + item_bytes(first) + tree_bytes(rest));
        lemma_item(before, first, tree_bytes(rest));
        assert forall|i: int| 0 <= i < rest.len() implies storable(#[trigger] rest[i]) by {
            assert(rest[i] == items[i + 1]);
        }
        lemma_tree(further, rest);
        assert(data =~= further + tree_bytes(rest));
        assert(views =~= seq![item_entry(first)] + rest.map_values(
            |item: Item| item_entry(item),
        ));
    }
}

/// A tree is read back entry by entry as it was stored.
pub proof fn law_tree_round_trip(items: Seq<Item>)
    requires
        forall|i: int| 0 <= i < items.len() ==> storable(#[trigger] items[i]),
    ensures
        tree::entries_from(tree_bytes(items), 0) == Ok::<Seq<EntryView>, ObjectError>(
            items.map_values(|item: Item| item_entry(item)),
        ),
{
    lemma_tree(Seq::empty(), items);
    assert(Seq::<u8>::empty() + tree_bytes(items) =~= tree_bytes(items));
}

// ---------------------------------------------------------------------------
// Paths

/// A path goes down one directory at a time: what stands at `first/rest` is what
/// stands at `rest` below the directory `first`.
pub proof fn law_path_goes_down(
    files: FilesView,
    root: Seq<char>,
    entries: Seq<EntryView>,
    first: Seq<char>,
    rest: Seq<char>,
    below: EntryView,
)
    requires
        reader::tree_at(files, root) == Ok::<Seq<EntryView>, ObjectError>(entries),
        reader::entry_named(entries, first) == Some(below),
        below.kind == "tree"@,
        !first.contains('/'),
    ensures
        reader::entry_at_path(files, root, first + seq!['/'] + rest) == reader::entry_at_path(
            files,
            below.oid,
            rest,
        ),
{
    text::lemma_split_cons(first, rest, '/');
    text::lemma_until(rest, '/');
    let tail = text::split(rest, '/');
    let parts = seq![first] + tail;
    assert(parts.drop_first() =~= tail);
    assert(parts[0] == first);
}

/// A path of one part names an entry of the tree itself.
pub proof fn law_single_name_is_entry(
    files: FilesView,
    root: Seq<char>,
    entries: Seq<EntryView>,
    name: Seq<char>,
)
    requires
        reader::tree_at(files, root) == Ok::<Seq<EntryView>, ObjectError>(entries),
        !name.contains('/'),
    ensures
        reader::entry_at_path(files, root, name) == reader::entry_named(entries, name),
{
    text::lemma_split_one(name, '/');
}

/// A file that was stored in the tree of a commit is read back at that commit,
/// unless it is longer than what was asked for.
pub proof fn law_stored_file_is_read(
    files: FilesView,
    rev: Seq<char>,
    c: CommitView,
    path: Seq<char>,
    entry: EntryView,
    contents: Seq<u8>,
    max_bytes: nat,
)
    requires
        reader::commit_at(files, rev) == Some(c),
        reader::entry_at_path(files, c.tree, path) == Some(entry),
        entry.kind == "blob"@,
        encode_utf8(entry.oid).len() == 40,
        object::object(files, entry.oid) == Ok::<ObjectView, ObjectError>(
            ObjectView { kind: Kind::Blob, data: contents },
        ),
    ensures
        reader::file_contents(files, rev, path, max_bytes) == (if contents.len() <= max_bytes {
            Some(contents)
        } else {
            None
        }),
{
}

/// True when a loose object of that kind and with that body is stored under an id.
pub open spec fn stores(files: FilesView, oid: Seq<char>, kind: Kind, body: Seq<u8>) -> bool {
    repo::stored(files.loose, oid) matches Some(z) && object::zlib_inflate(z) == Some(
        object_bytes(kind, body),
    )
}

proof fn lemma_entry_named(items: Seq<Item>, k: int)
    requires
        0 <= k < items.len(),
        forall|i: int| 0 <= i < k ==> (#[trigger] items[i]).name != items[k].name,
    ensures
        reader::entry_named(items.map_values(|item: Item| item_entry(item)), items[k].name) == Some(
            item_entry(items[k]),
        ),
    decreases k,
{
    let views = items.map_values(|item: Item| item_entry(item));
    assert(views[0] == item_entry(items[0]));
    if k > 0 {
        let rest = items.drop_first();
        assert(items[0].name != items[k].name);
        assert(rest[k - 1] == items[k]);
        assert forall|i: int| 0 <= i < k - 1 implies (#[trigger] rest[i]).name != rest[k
            - 1].name by {
            assert(rest[i] == items[i + 1]);
        }
        lemma_entry_named(rest, k - 1);
        assert(views.drop_first() =~= rest.map_values(|item: Item| item_entry(item)));
    }
}

/// A file that was stored, with its tree and its commit, is read back under the
/// commit's id and the file's name.
pub proof fn law_committed_file_is_read(
    files: FilesView,
    id: Seq<u8>,
    p: commits::Parts,
    tree_id: Seq<u8>,
    items: Seq<Item>,
    k: int,
    contents: Seq<u8>,
    max_bytes: nat,
)
    requires
        id.len() == 20,
        tree_id.len() == 20,
        commits::writable(p),
        p.tree == numbers::to_hex(tree_id),
        stores(files, numbers::to_hex(id), Kind::Commit, encode_utf8(commits::commit_text(p))),
        stores(files, numbers::to_hex(tree_id), Kind::Tree, tree_bytes(items)),
        forall|i: int| 0 <= i < items.len() ==> storable(#[trigger] items[i]),
        0 <= k < items.len(),
        forall|i: int| 0 <= i < k ==> (#[trigger] items[i]).name != items[k].name,
        !items[k].name.contains('/'),
        tree::mode_kind(items[k].mode) == "blob"@,
        stores(files, numbers::to_hex(items[k].id), Kind::Blob, contents),
        contents.len() <= max_bytes,
    ensures
        reader::file_contents(files, numbers::to_hex(id), items[k].name, max_bytes) == Some(
            contents,
        ),
{
    let item = items[k];
    let rev = numbers::to_hex(id);
    let blob = numbers::to_hex(item.id);
    let text = encode_utf8(commits::commit_text(p));
    assert(storable(item));
    encodings::law_hex_id_round_trip(id);
    encodings::lemma_hex_form(id);
    encodings::lemma_hex_form(tree_id);
    encodings::lemma_hex_form(item.id);
    law_loose_object_is_read(
        files,
        rev,
        repo::stored(files.loose, rev)->0,
        Kind::Commit,
        text,
    );
    law_loose_object_is_read(
        files,
        p.tree,
        repo::stored(files.loose, p.tree)->0,
        Kind::Tree,
        tree_bytes(items),
    );
    law_loose_object_is_read(
        files,
        blob,
        repo::stored(files.loose, blob)->0,
        Kind::Blob,
        contents,
    );
    commits::law_stored_commit_is_shown(files, rev, p);
    law_tree_round_trip(items);
    let entries = items.map_values(|item: Item| item_entry(item));
    lemma_entry_named(items, k);
    law_single_name_is_entry(files, p.tree, entries, item.name);
    law_stored_file_is_read(
        files,
        rev,
        reader::commit_at(files, rev)->0,
        item.name,
        item_entry(item),
        contents,
        max_bytes,
    );
}

}
