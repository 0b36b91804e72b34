//! Delta chains: an object in a pack is its base with every delta of the chain
//! applied, from the whole object at the start to the last delta.

use vstd::prelude::*;
use crate::git::bytes::ObjectError;
use crate::git::object::{self, Kind, ObjectView};
use crate::git::pack;
use crate::laws::packs::{self, Instruction, Row};
use crate::laws::{deltas, encodings};
use crate::repo::{self, FileView, FilesView};
use crate::{numbers, text};

verus! {

// ---------------------------------------------------------------------------
// One object of a pack

/// The number by which a pack tells the kind of an object that is stored whole.
pub open spec fn kind_code(kind: Kind) -> u8 {
    match kind {
        Kind::Commit => 1,
        Kind::Tree => 2,
        Kind::Blob => 3,
        Kind::Tag => 4,
    }
}

/// True when the pack holds, from `offset` on, a header with that type and then
/// what `rest` holds.
pub open spec fn holds_at(data: Seq<u8>, offset: int, code: u8, size: nat, rest: Seq<u8>) -> bool {
    &&& 0 <= offset <= data.len()
    &&& size < 0x1_0000_0000_0000_0000
    &&& data.skip(offset) == packs::header_bytes(code, size) + rest
}

/// True when the delta program can be carried out over the base, and the stream
/// inflates to it.
pub open spec fn is_program(list: Seq<Instruction>, base: Seq<u8>, compressed: Seq<u8>) -> bool {
    &&& forall|k: int| 0 <= k < list.len() ==> packs::possible(#[trigger] list[k], base.len())
    &&& packs::made_by_all(list, base).len() < 0x1_0000_0000_0000_0000
    &&& object::zlib_inflate(compressed) == Some(packs::delta_bytes(list, base))
}

pub proof fn lemma_header_at(data: Seq<u8>, offset: int, code: u8, size: nat, rest: Seq<u8>)
    requires
        holds_at(data, offset, code, size, rest),
        code < 8,
    ensures
        ({
            let pos = offset + packs::header_bytes(code, size).len();
            &&& pack::pack_header(data, offset) == Ok::<(u8, nat, int), ObjectError>(
                (code, size, pos),
            )
            &&& pos <= data.len()
            &&& data.skip(pos) == rest
            &&& data == data.take(pos) + rest
        }),
{
    let before = data.take(offset);
    let head = packs::header_bytes(code, size);
    packs::law_pack_header_round_trip(before, code, size, rest);
    assert(data =~= before + data.skip(offset));
    assert(data =~= before + head + rest);
    let pos = offset + head.len();
    assert(data.skip(pos) =~= rest);
    assert(data =~= data.take(pos) + rest);
}

/// An object that is stored whole is read as it is, as the object itself or as
/// the start of a chain of at most 32 deltas.
pub proof fn law_whole_object_is_read_at_any_depth(
    files: FilesView,
    data: Seq<u8>,
    offset: int,
    kind: Kind,
    size: nat,
    compressed: Seq<u8>,
    body: Seq<u8>,
    depth: nat,
    budget: nat,
)
    requires
        holds_at(data, offset, kind_code(kind), size, compressed),
        object::zlib_inflate(compressed) == Some(body),
        depth <= 32,
    ensures
        object::pack_object(files, data, offset, depth, budget) == Ok::<ObjectView, ObjectError>(
            ObjectView { kind, data: body },
        ),
{
    lemma_header_at(data, offset, kind_code(kind), size, compressed);
}

/// A delta over an object that stands earlier in the pack makes what its program
/// makes over that object, of the same kind, at whatever depth of a chain it is
/// reached.
pub proof fn law_offset_delta_is_applied(
    files: FilesView,
    data: Seq<u8>,
    offset: int,
    size: nat,
    distance: nat,
    compressed: Seq<u8>,
    base: ObjectView,
    list: Seq<Instruction>,
    depth: nat,
    budget: nat,
)
    requires
        holds_at(data, offset, 6, size, encodings::high_bytes(distance) + compressed),
        distance <= offset,
        distance < 0x1_0000_0000_0000_0000,
        depth < 32,
        object::pack_object(files, data, offset - distance, depth + 1, budget) == Ok::<
            ObjectView,
            ObjectError,
        >(base),
        is_program(list, base.data, compressed),
    ensures
        object::pack_object(files, data, offset, depth, budget) == Ok::<ObjectView, ObjectError>(
            ObjectView { kind: base.kind, data: packs::made_by_all(list, base.data) },
        ),
{
    let far = encodings::high_bytes(distance);
    lemma_header_at(data, offset, 6, size, far + compressed);
    let pos = offset + packs::header_bytes(6, size).len();
    let before = data.take(pos);
    packs::law_offset_delta_finds_base(before, offset, distance, compressed);
    assert(data =~= before + far + compressed);
    assert(data.skip(pos + far.len()) =~= compressed);
    packs::law_delta_object_is_read(base, list, compressed);
}

/// A delta over an object that is named by its id makes what its program makes
/// over that object, of the same kind, at whatever depth it is reached.
pub proof fn law_named_delta_is_applied(
    files: FilesView,
    data: Seq<u8>,
    offset: int,
    size: nat,
    id: Seq<u8>,
    compressed: Seq<u8>,
    base: ObjectView,
    list: Seq<Instruction>,
    depth: nat,
    budget: nat,
)
    requires
        id.len() == 20,
        holds_at(data, offset, 7, size, id + compressed),
        depth <= 32,
        budget > 0,
        object::object_within(files, numbers::to_hex(id), (budget - 1) as nat) == Ok::<
            ObjectView,
            ObjectError,
        >(base),
        is_program(list, base.data, compressed),
    ensures
        object::pack_object(files, data, offset, depth, budget) == Ok::<ObjectView, ObjectError>(
            ObjectView { kind: base.kind, data: packs::made_by_all(list, base.data) },
        ),
{
    lemma_header_at(data, offset, 7, size, id + compressed);
    let pos = offset + packs::header_bytes(7, size).len();
    assert(data.subrange(pos, pos + 20) =~= id);
    assert(data.skip(pos + 20) =~= compressed);
    packs::law_delta_object_is_read(base, list, compressed);
}

// ---------------------------------------------------------------------------
// Chains

/// A delta of a chain: where it stands, and what it makes of its base.
pub struct Link {
    /// Where in the pack it stands.
    pub offset: int,
    /// The size in its header.
    pub size: nat,
    /// Its instructions.
    pub program: Seq<Instruction>,
    /// Its compressed form.
    pub compressed: Seq<u8>,
}

/// What the programs make, one after another, of the bytes at the start.
pub open spec fn after_all(start: Seq<u8>, links: Seq<Link>) -> Seq<u8>
    decreases links.len(),
{
    if links.len() == 0 {
        start
    } else {
        packs::made_by_all(links.last().program, after_all(start, links.drop_last()))
    }
}

/// Where the last object of a chain stands.
pub open spec fn chain_end(first: int, links: Seq<Link>) -> int {
    if links.len() == 0 {
        first
    } else {
        links.last().offset
    }
}

/// True when the pack holds the chain: every link is an offset delta over the
/// one before, the first over the object at `first`.
pub open spec fn holds_chain(data: Seq<u8>, first: int, start: Seq<u8>, links: Seq<Link>) -> bool
    decreases links.len(),
{
    links.len() > 0 ==> {
        let rest = links.drop_last();
        let last = links.last();
        let distance = last.offset - chain_end(first, rest);
        &&& holds_chain(data, first, start, rest)
        &&& 0 <= distance <= last.offset
        &&& distance < 0x1_0000_0000_0000_0000
        &&& holds_at(
            data,
            last.offset,
            6,
            last.size,
            encodings::high_bytes(distance as nat) + last.compressed,
        )
        &&& is_program(last.program, after_all(start, rest), last.compressed)
    }
}

/// The object at the end of a chain of at most 32 offset deltas is what their
/// programs make, one after another, of the whole object at the start.
pub proof fn law_chain_is_applied_in_full(
    files: FilesView,
    data: Seq<u8>,
    first: int,
    kind: Kind,
    size: nat,
    compressed: Seq<u8>,
    start: Seq<u8>,
    links: Seq<Link>,
    depth: nat,
    budget: nat,
)
    requires
        holds_at(data, first, kind_code(kind), size, compressed),
        object::zlib_inflate(compressed) == Some(start),
        holds_chain(data, first, start, links),
        depth + links.len() <= 32,
    ensures
        object::pack_object(files, data, chain_end(first, links), depth, budget) == Ok::<
            ObjectView,
            ObjectError,
        >(ObjectView { kind, data: after_all(start, links) }),
    decreases links.len(),
{
    if links.len() == 0 {
        law_whole_object_is_read_at_any_depth(
            files,
            data,
            first,
            kind,
            size,
            compressed,
            start,
            depth,
            budget,
        );
    } else {
        let rest = links.drop_last();
        let last = links.last();
        law_chain_is_applied_in_full(
            files,
            data,
            first,
            kind,
            size,
            compressed,
            start,
            rest,
            depth + 1,
            budget,
        );
        law_offset_delta_is_applied(
            files,
            data,
            last.offset,
            last.size,
            (last.offset - chain_end(first, rest)) as nat,
            last.compressed,
            ObjectView { kind, data: after_all(start, rest) },
            last.program,
            depth,
            budget,
        );
    }
}

/// A chain of more than 32 offset deltas is refused.
pub proof fn law_longer_chain_is_refused(
    files: FilesView,
    data: Seq<u8>,
    first: int,
    start: Seq<u8>,
    links: Seq<Link>,
    depth: nat,
    budget: nat,
)
    requires
        holds_chain(data, first, start, links),
        depth + links.len() > 32,
    ensures
        object::pack_object(files, data, chain_end(first, links), depth, budget) == Err::<
            ObjectView,
            ObjectError,
        >(ObjectError::DepthExceeded),
    decreases links.len(),
{
    if depth <= 32 {
        let rest = links.drop_last();
        let last = links.last();
        let distance = (last.offset - chain_end(first, rest)) as nat;
        let far = encodings::high_bytes(distance);
        law_longer_chain_is_refused(files, data, first, start, rest, depth + 1, budget);
        lemma_header_at(data, last.offset, 6, last.size, far + last.compressed);
        let pos = last.offset + packs::header_bytes(6, last.size).len();
        let before = data.take(pos);
        packs::law_offset_delta_finds_base(before, last.offset, distance, last.compressed);
        assert(data =~= before + far + last.compressed);
    }
}

/// Depth changes nothing but whether a chain is followed to its start: what is
/// read deep in a chain is read higher up as well.
pub proof fn law_depth_changes_no_object(
    files: FilesView,
    data: Seq<u8>,
    offset: int,
    high: nat,
    deep: nat,
    budget: nat,
)
    requires
        high <= deep,
        object::pack_object(files, data, offset, deep, budget) is Ok,
    ensures
        object::pack_object(files, data, offset, high, budget) == object::pack_object(
            files,
            data,
            offset,
            deep,
            budget,
        ),
    decreases 39 - deep,
{
    match pack::pack_header(data, offset) {
        Err(_) => {},
        Ok((kind, _size, pos)) => if kind == 6 {
            match pack::ofs_base(data, offset, pos) {
                Err(_) => {},
                Ok((base, _next)) => law_depth_changes_no_object(
                    files,
                    data,
                    base,
                    high + 1,
                    deep + 1,
                    budget,
                ),
            }
        },
    }
}

// ---------------------------------------------------------------------------
// From an id to the place in a pack

/// True when the file is the first of its name.
pub open spec fn is_first(files: Seq<FileView>, k: int) -> bool {
    0 <= k < files.len() && forall|j: int| 0 <= j < k ==> (#[trigger] files[j]).name != files[k].name
}

/// A file is found by its name.
pub proof fn law_file_is_found_by_name(files: Seq<FileView>, k: int)
    requires
        is_first(files, k),
    ensures
        repo::stored(files, files[k].name) == files[k].data,
    decreases k,
{
    if k > 0 {
        let rest = files.drop_first();
        assert(files[0].name != files[k].name);
        assert(rest[k - 1] == files[k]);
        assert forall|j: int| 0 <= j < k - 1 implies (#[trigger] rest[j]).name != rest[k - 1].name by {
            assert(rest[j] == files[j + 1]);
        }
        law_file_is_found_by_name(rest, k - 1);
    }
}

/// No file is found by a name that none has.
pub proof fn law_missing_file_is_not_found(files: Seq<FileView>, name: Seq<char>)
    requires
        forall|j: int| 0 <= j < files.len() ==> (#[trigger] files[j]).name != name,
    ensures
        repo::stored(files, name) is None,
    decreases files.len(),
{
    if files.len() > 0 {
        let rest = files.drop_first();
        assert forall|j: int| 0 <= j < rest.len() implies (#[trigger] rest[j]).name != name by {
            assert(rest[j] == files[j + 1]);
        }
        law_missing_file_is_not_found(rest, name);
    }
}

/// True when the file lists no object of that id: it is no index, cannot be read,
/// or is an index of other objects.
pub open spec fn lists_not(file: FileView, id: Seq<u8>) -> bool {
    ||| !text::has_suffix(file.name, ".idx"@)
    ||| file.data is None
    ||| exists|rows: Seq<Row>| #[trigger]
        packs::is_index_of(file.data->0, rows) && packs::indexable(rows) && forall|i: int|
            0 <= i < rows.len() ==> (#[trigger] rows[i]).id != id
}

pub proof fn lemma_lists_not(file: FileView, id: Seq<u8>)
    requires
        lists_not(file, id),
        id.len() == 20,
    ensures
        object::index_entry(file, numbers::to_hex(id)) is None,
{
    if text::has_suffix(file.name, ".idx"@) && file.data is Some {
        let rows = choose|rows: Seq<Row>| #[trigger]
            packs::is_index_of(file.data->0, rows) && packs::indexable(rows) && forall|i: int|
                0 <= i < rows.len() ==> (#[trigger] rows[i]).id != id;
        packs::law_index_knows_what_is_missing(file.data->0, rows, id);
    }
}

/// True when the index with number `at` among the files in `objects/pack` is that
/// of the rows, and the pack that goes with it has number `with`: the two are
/// named alike but for `.idx` and `.pack`.
pub open spec fn is_pair(
    files: Seq<FileView>,
    at: int,
    with: int,
    stem: Seq<char>,
    rows: Seq<Row>,
    data: Seq<u8>,
) -> bool {
    &&& 0 <= at < files.len()
    &&& is_first(files, with)
    &&& stem.len() > 0
    &&& files[at].name == stem + ".idx"@
    &&& files[with].name == stem + ".pack"@
    &&& files[at].data matches Some(index) && packs::is_index_of(index, rows)
    &&& packs::indexable(rows)
    &&& files[with].data == Some(data)
    &&& data.len() >= 12
    &&& data[0] == 0x50 && data[1] == 0x41 && data[2] == 0x43 && data[3] == 0x4b
}

pub proof fn lemma_located(packs: Seq<FileView>, from: int, at: int, id: Seq<u8>)
    requires
        id.len() == 20,
        0 <= from <= at < packs.len(),
        forall|j: int| 0 <= j < at ==> lists_not(#[trigger] packs[j], id),
        object::index_entry(packs[at], numbers::to_hex(id)) is Some,
    ensures
        object::locate(packs, from, numbers::to_hex(id)) == Some(
            (
                object::pack_name(packs[at].name),
                object::index_entry(packs[at], numbers::to_hex(id))->0,
            ),
        ),
    decreases at - from,
{
    if from < at {
        lemma_lists_not(packs[from], id);
        lemma_located(packs, from + 1, at, id);
    }
}

/// Whichever of the packs holds an object, it is found there: its id leads over
/// the index to the place in the pack, unless the object is stored loose.
pub proof fn law_packed_object_is_found(
    files: FilesView,
    at: int,
    with: int,
    stem: Seq<char>,
    rows: Seq<Row>,
    data: Seq<u8>,
    k: int,
)
    requires
        is_pair(files.packs, at, with, stem, rows, data),
        0 <= k < rows.len(),
        forall|j: int| 0 <= j < at ==> lists_not(#[trigger] files.packs[j], rows[k].id),
        forall|j: int|
            0 <= j < files.loose.len() ==> (#[trigger] files.loose[j]).name != numbers::to_hex(
                rows[k].id,
            ),
    ensures
        object::object(files, numbers::to_hex(rows[k].id)) == object::pack_object(
            files,
            data,
            rows[k].offset as int,
            0,
            object::total_bytes(files.packs),
        ),
{
    lemma_found_place(files, at, with, stem, rows, data, k);
}

/// A file that was stored in a pack at the end of a chain of at most 32 deltas is
/// read under its id as what the programs of the chain make of its start.
pub proof fn law_packed_chain_is_read(
    files: FilesView,
    at: int,
    with: int,
    stem: Seq<char>,
    rows: Seq<Row>,
    data: Seq<u8>,
    k: int,
    first: int,
    kind: Kind,
    size: nat,
    compressed: Seq<u8>,
    start: Seq<u8>,
    links: Seq<Link>,
)
    requires
        is_pair(files.packs, at, with, stem, rows, data),
        0 <= k < rows.len(),
        forall|j: int| 0 <= j < at ==> lists_not(#[trigger] files.packs[j], rows[k].id),
        forall|j: int|
            0 <= j < files.loose.len() ==> (#[trigger] files.loose[j]).name != numbers::to_hex(
                rows[k].id,
            ),
        holds_at(data, first, kind_code(kind), size, compressed),
        object::zlib_inflate(compressed) == Some(start),
        holds_chain(data, first, start, links),
        links.len() <= 32,
        rows[k].offset == chain_end(first, links),
    ensures
        object::object(files, numbers::to_hex(rows[k].id)) == Ok::<ObjectView, ObjectError>(
            ObjectView { kind, data: after_all(start, links) },
        ),
{
    law_packed_object_is_found(files, at, with, stem, rows, data, k);
    law_chain_is_applied_in_full(
        files,
        data,
        first,
        kind,
        size,
        compressed,
        start,
        links,
        0,
        object::total_bytes(files.packs),
    );
}

/// An object that is stored as a delta over another, which is named by its id, is
/// read as what the program makes of that other object, wherever that is stored.
pub proof fn law_delta_over_named_object_is_read(
    files: FilesView,
    at: int,
    with: int,
    stem: Seq<char>,
    rows: Seq<Row>,
    data: Seq<u8>,
    k: int,
    size: nat,
    id: Seq<u8>,
    compressed: Seq<u8>,
    base: ObjectView,
    list: Seq<Instruction>,
)
    requires
        is_pair(files.packs, at, with, stem, rows, data),
        0 <= k < rows.len(),
        forall|j: int| 0 <= j < at ==> lists_not(#[trigger] files.packs[j], rows[k].id),
        forall|j: int|
            0 <= j < files.loose.len() ==> (#[trigger] files.loose[j]).name != numbers::to_hex(
                rows[k].id,
            ),
        id.len() == 20,
        holds_at(data, rows[k].offset as int, 7, size, id + compressed),
        object::object(files, numbers::to_hex(id)) == Ok::<ObjectView, ObjectError>(base),
        is_program(list, base.data, compressed),
    ensures
        object::object(files, numbers::to_hex(rows[k].id)) == Ok::<ObjectView, ObjectError>(
            ObjectView { kind: base.kind, data: packs::made_by_all(list, base.data) },
        ),
{
    let total = object::total_bytes(files.packs);
    let oid = numbers::to_hex(rows[k].id);
    let below = numbers::to_hex(id);
    let offset = rows[k].offset as int;
    law_packed_object_is_found(files, at, with, stem, rows, data, k);
    lemma_found_place(files, at, with, stem, rows, data, k);
    lemma_header_at(data, offset, 7, size, id + compressed);
    let pos = offset + packs::header_bytes(7, size).len();
    assert(data.subrange(pos, pos + 20) =~= id);
    let place = deltas::base_place(files, oid)->0;
    assert(deltas::id_at(files, place) == below);
    if !deltas::ends_within(files, below, total) {
        deltas::law_endless_chain_is_reported(files, below, total);
    }
    assert(deltas::reached(files, oid, total + 2) == deltas::reached(files, below, total + 1));
    deltas::law_bound_is_enough(files, oid, total + 1);
    assert(deltas::reached(files, oid, total + 1) == deltas::reached(files, below, total));
    assert(total > 0) by {
        lemma_total(files.packs, with);
    }
    deltas::law_bound_is_harmless(files, below, (total - 1) as nat, total);
    law_named_delta_is_applied(files, data, offset, size, id, compressed, base, list, 0, total);
}

proof fn lemma_found_place(
    files: FilesView,
    at: int,
    with: int,
    stem: Seq<char>,
    rows: Seq<Row>,
    data: Seq<u8>,
    k: int,
)
    requires
        is_pair(files.packs, at, with, stem, rows, data),
        0 <= k < rows.len(),
        forall|j: int| 0 <= j < at ==> lists_not(#[trigger] files.packs[j], rows[k].id),
        forall|j: int|
            0 <= j < files.loose.len() ==> (#[trigger] files.loose[j]).name != numbers::to_hex(
                rows[k].id,
            ),
    ensures
        object::loose_object(files, numbers::to_hex(rows[k].id)) is Err,
        object::locate(files.packs, 0, numbers::to_hex(rows[k].id)) == Some(
            (stem + ".pack"@, rows[k].offset),
        ),
        repo::stored(files.packs, stem + ".pack"@) == Some(data),
        object::is_pack(data),
{
    let id = rows[k].id;
    let file = files.packs[at];
    reveal_strlit(".idx");
    reveal_strlit(".pack");
    assert(rows[k].id.len() == 20);
    law_missing_file_is_not_found(files.loose, numbers::to_hex(id));
    packs::law_index_finds_every_row(file.data->0, rows, k);
    assert(file.name.skip(file.name.len() - 4) =~= ".idx"@);
    assert(file.name.take(file.name.len() - 4) =~= stem);
    lemma_located(files.packs, 0, at, id);
    law_file_is_found_by_name(files.packs, with);
    assert(data.take(4) =~= seq![0x50u8, 0x41u8, 0x43u8, 0x4bu8]);
}

proof fn lemma_total(files: Seq<FileView>, k: int)
    requires
        0 <= k < files.len(),
        files[k].data matches Some(d) && d.len() > 0,
    ensures
        object::total_bytes(files) > 0,
    decreases files.len(),
{
    if k < files.len() - 1 {
        assert(files.drop_last()[k] == files[k]);
        lemma_total(files.drop_last(), k);
    }
}

}
