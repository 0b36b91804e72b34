//! Faults: what is wrong with an object is told from every other fault.

use vstd::prelude::*;
use vstd::utf8::*;
use crate::git::bytes::{self, ObjectError};
use crate::git::object::{self, Kind, ObjectView};
use crate::git::tree::{self, EntryView};
use crate::git::{delta, idx, pack, reader};
use crate::laws::chains::{self, holds_at, lists_not};
use crate::laws::objects::{self, item_bytes, storable, tree_bytes, Item};
use crate::laws::packs::{self, Instruction, Row};
use crate::laws::{encodings, texts, urls};
use crate::repo::{FileView, FilesView};
use crate::{numbers, text};

verus! {

// ---------------------------------------------------------------------------
// Objects that cannot be found

proof fn lemma_nowhere(packs: Seq<FileView>, from: int, id: Seq<u8>)
    requires
        id.len() == 20,
        0 <= from,
        forall|j: int| 0 <= j < packs.len() ==> lists_not(#[trigger] packs[j], id),
    ensures
        object::locate(packs, from, numbers::to_hex(id)) is None,
    decreases packs.len() - from,
{
    if from < packs.len() {
        chains::lemma_lists_not(packs[from], id);
        lemma_nowhere(packs, from + 1, id);
    }
}

/// An object that neither a loose file nor an index names is not found.
pub proof fn law_unknown_object_is_not_found(files: FilesView, id: Seq<u8>)
    requires
        id.len() == 20,
        forall|j: int|
            0 <= j < files.loose.len() ==> (#[trigger] files.loose[j]).name != numbers::to_hex(id),
        forall|j: int| 0 <= j < files.packs.len() ==> lists_not(#[trigger] files.packs[j], id),
    ensures
        object::object(files, numbers::to_hex(id)) == Err::<ObjectView, ObjectError>(
            ObjectError::NotFound,
        ),
{
    chains::law_missing_file_is_not_found(files.loose, numbers::to_hex(id));
    lemma_nowhere(files.packs, 0, id);
}

/// A loose object is not read from under a name that is no id.
pub proof fn law_loose_object_needs_an_id(files: FilesView, oid: Seq<char>)
    requires
        encode_utf8(oid).len() != 40,
    ensures
        object::loose_object(files, oid) == Err::<ObjectView, ObjectError>(ObjectError::BadOid),
{
}

/// A loose file whose stream is broken is told from one that is not there.
pub proof fn law_broken_loose_file_is_reported(files: FilesView, k: int)
    requires
        chains::is_first(files.loose, k),
        encode_utf8(files.loose[k].name).len() == 40,
    ensures
        files.loose[k].data is None ==> object::loose_object(files, files.loose[k].name) == Err::<
            ObjectView,
            ObjectError,
        >(ObjectError::NotFound),
        files.loose[k].data matches Some(z) && object::zlib_inflate(z) is None
            ==> object::loose_object(files, files.loose[k].name) == Err::<ObjectView, ObjectError>(
            ObjectError::Inflate,
        ),
{
    chains::law_file_is_found_by_name(files.loose, k);
}

/// A loose object's header ends at its first NUL byte, is text, and starts with one
/// of the four kinds.
pub proof fn law_odd_header_is_reported(header: Seq<u8>, body: Seq<u8>, word: Seq<char>)
    requires
        !header.contains(0u8),
    ensures
        object::payload(header) == Err::<ObjectView, ObjectError>(ObjectError::MissingHeader),
        !valid_utf8(header) ==> object::payload(header + seq![0u8] + body) == Err::<
            ObjectView,
            ObjectError,
        >(ObjectError::BadHeaderText),
        header == encode_utf8(word) && !word.contains(' ') && word != "commit"@ && word != "tree"@
            && word != "blob"@ && word != "tag"@ ==> object::payload(header + seq![0u8] + body)
            == Err::<ObjectView, ObjectError>(ObjectError::UnsupportedKind),
{
    let n = header.len() as int;
    assert forall|j: int| 0 <= j < n implies header[j] != 0 by {
        assert(header.contains(header[j]));
    }
    assert(header.skip(0) =~= header);
    text::lemma_until_is(header, 0u8, n);
    let whole = header + seq![0u8] + body;
    assert(whole.skip(0) =~= whole);
    assert(whole[n] == 0);
    assert forall|j: int| 0 <= j < n implies whole[j] != 0 by {
        assert(whole[j] == header[j]);
    }
    text::lemma_until_is(whole, 0u8, n);
    assert(whole.take(n) =~= header);
    if header == encode_utf8(word) && !word.contains(' ') {
        encode_utf8_valid_utf8(word);
        encode_utf8_decode_utf8(word);
        assert forall|j: int| 0 <= j < word.len() implies word[j] != ' ' by {
            assert(word.contains(word[j]));
        }
        text::lemma_until_is(word, ' ', word.len() as int);
        assert(word.take(word.len() as int) =~= word);
    }
}

/// A pack that is not there is unreadable, and one that does not start like a pack
/// is none.
#[verifier::spinoff_prover]
pub proof fn law_bad_pack_is_reported(
    files: FilesView,
    at: int,
    stem: Seq<char>,
    rows: Seq<Row>,
    k: int,
)
    requires
        0 <= at < files.packs.len(),
        stem.len() > 0,
        files.packs[at].name == stem + ".idx"@,
        files.packs[at].data matches Some(index) && packs::is_index_of(index, rows),
        packs::indexable(rows),
        0 <= k < rows.len(),
        forall|j: int| 0 <= j < at ==> lists_not(#[trigger] files.packs[j], rows[k].id),
        forall|j: int|
            0 <= j < files.loose.len() ==> (#[trigger] files.loose[j]).name != numbers::to_hex(
                rows[k].id,
            ),
    ensures
        (forall|j: int|
            0 <= j < files.packs.len() ==> (#[trigger] files.packs[j]).name != stem + ".pack"@)
            ==> object::object(files, numbers::to_hex(rows[k].id)) == Err::<
            ObjectView,
            ObjectError,
        >(ObjectError::Unreadable),
        forall|with: int, data: Seq<u8>|
            #![trigger chains::is_first(files.packs, with), data.len()]
            chains::is_first(files.packs, with) && files.packs[with].name == stem + ".pack"@
                && files.packs[with].data == Some(data) && (data.len() < 12 || data[0] != 0x50
                || data[1] != 0x41 || data[2] != 0x43 || data[3] != 0x4b) ==> object::object(
                files,
                numbers::to_hex(rows[k].id),
            ) == Err::<ObjectView, ObjectError>(ObjectError::BadPack),
{
    reveal_strlit(".idx");
    let id = rows[k].id;
    let oid = numbers::to_hex(id);
    let name = files.packs[at].name;
    chains::law_missing_file_is_not_found(files.loose, oid);
    packs::law_index_finds_every_row(files.packs[at].data->0, rows, k);
    assert(name.skip(name.len() - 4) =~= ".idx"@);
    texts::law_part_is_found(stem, ".idx"@, Seq::empty());
    assert(name.take(name.len() - 4) =~= stem);
    assert(object::is_idx_name(name));
    chains::lemma_located(files.packs, 0, at, id);
    if forall|j: int|
        0 <= j < files.packs.len() ==> (#[trigger] files.packs[j]).name != stem + ".pack"@ {
        chains::law_missing_file_is_not_found(files.packs, stem + ".pack"@);
    }
    assert forall|with: int, data: Seq<u8>|
        #![trigger chains::is_first(files.packs, with), data.len()]
        chains::is_first(files.packs, with) && files.packs[with].name == stem + ".pack"@
            && files.packs[with].data == Some(data) && (data.len() < 12 || data[0] != 0x50
            || data[1] != 0x41 || data[2] != 0x43 || data[3] != 0x4b) implies object::object(
        files,
        numbers::to_hex(rows[k].id),
    ) == Err::<ObjectView, ObjectError>(ObjectError::BadPack) by {
        chains::law_file_is_found_by_name(files.packs, with);
        if data.len() >= 12 {
            let start = data.take(4);
            assert(start[0] == data[0] && start[1] == data[1] && start[2] == data[2] && start[3]
                == data[3]);
        }
    }
}

// ---------------------------------------------------------------------------
// Objects of a pack

/// There is no object at the end of a pack or behind it.
pub proof fn law_no_object_behind_pack(
    files: FilesView,
    data: Seq<u8>,
    offset: int,
    depth: nat,
    budget: nat,
)
    requires
        offset >= data.len(),
        depth <= 32,
    ensures
        object::pack_object(files, data, offset, depth, budget) == Err::<ObjectView, ObjectError>(
            ObjectError::ShortPackHeader,
        ),
{
}

/// An object of a type that is neither a kind nor a delta is refused, and one whose
/// stream is broken cannot be inflated.
pub proof fn law_odd_packed_object_is_reported(
    files: FilesView,
    data: Seq<u8>,
    offset: int,
    code: u8,
    size: nat,
    rest: Seq<u8>,
    depth: nat,
    budget: nat,
)
    requires
        code < 8,
        holds_at(data, offset, code, size, rest),
        depth <= 32,
    ensures
        code == 0 || code == 5 ==> object::pack_object(files, data, offset, depth, budget) == Err::<
            ObjectView,
            ObjectError,
        >(ObjectError::UnsupportedType),
        1 <= code <= 4 && object::zlib_inflate(rest) is None ==> object::pack_object(
            files,
            data,
            offset,
            depth,
            budget,
        ) == Err::<ObjectView, ObjectError>(ObjectError::Inflate),
        code == 7 && rest.len() < 20 ==> object::pack_object(files, data, offset, depth, budget)
            == Err::<ObjectView, ObjectError>(ObjectError::BadRefDelta),
        code == 6 && (forall|i: int| 0 <= i < rest.len() ==> #[trigger] rest[i] >= 128)
            ==> object::pack_object(files, data, offset, depth, budget) == Err::<
            ObjectView,
            ObjectError,
        >(ObjectError::ShortOfsDelta),
{
    chains::lemma_header_at(data, offset, code, size, rest);
    let pos = offset + packs::header_bytes(code, size).len();
    if forall|i: int| 0 <= i < rest.len() ==> #[trigger] rest[i] >= 128 {
        assert forall|i: int| pos <= i < data.len() implies #[trigger] data[i] >= 128 by {
            assert(data[i] == rest[i - pos]);
        }
        lemma_endless(data, pos);
    }
}

/// A number that does not end before the data do has no length.
proof fn lemma_endless(data: Seq<u8>, pos: int)
    requires
        forall|i: int| pos <= i < data.len() ==> #[trigger] data[i] >= 128,
    ensures
        bytes::number_len(data, pos) is None,
    decreases data.len() - pos,
{
    if 0 <= pos < data.len() {
        assert(data[pos] >= 128);
        lemma_endless(data, pos + 1);
    }
}

/// A header whose size does not end is cut off.
pub proof fn law_endless_size_is_reported(
    files: FilesView,
    data: Seq<u8>,
    offset: int,
    depth: nat,
    budget: nat,
)
    requires
        0 <= offset < data.len(),
        forall|i: int| offset <= i < data.len() ==> #[trigger] data[i] >= 128,
        depth <= 32,
    ensures
        object::pack_object(files, data, offset, depth, budget) == Err::<ObjectView, ObjectError>(
            ObjectError::ShortPackSize,
        ),
{
    lemma_endless(data, offset + 1);
}

/// An offset delta does not reach before the start of its pack.
pub proof fn law_far_base_is_reported(
    files: FilesView,
    data: Seq<u8>,
    offset: int,
    size: nat,
    distance: nat,
    compressed: Seq<u8>,
    depth: nat,
    budget: nat,
)
    requires
        holds_at(data, offset, 6, size, encodings::high_bytes(distance) + compressed),
        offset < distance < 0x1_0000_0000_0000_0000,
        depth <= 32,
    ensures
        object::pack_object(files, data, offset, depth, budget) == Err::<ObjectView, ObjectError>(
            ObjectError::BadOfsDelta,
        ),
{
    let far = encodings::high_bytes(distance);
    chains::lemma_header_at(data, offset, 6, size, far + compressed);
    let pos = offset + packs::header_bytes(6, size).len();
    let before = data.take(pos);
    assert(data =~= before + far + compressed);
    encodings::law_high_first_round_trip(before, distance, compressed);
}

/// What is wrong with the base of a delta is wrong with the delta.
#[verifier::spinoff_prover]
pub proof fn law_fault_of_base_is_reported(
    files: FilesView,
    data: Seq<u8>,
    offset: int,
    size: nat,
    distance: nat,
    compressed: Seq<u8>,
    depth: nat,
    budget: nat,
    fault: ObjectError,
)
    requires
        holds_at(data, offset, 6, size, encodings::high_bytes(distance) + compressed),
        distance <= offset,
        distance < 0x1_0000_0000_0000_0000,
        depth <= 32,
        object::pack_object(files, data, offset - distance, depth + 1, budget) == Err::<
            ObjectView,
            ObjectError,
        >(fault),
    ensures
        object::pack_object(files, data, offset, depth, budget) == Err::<ObjectView, ObjectError>(
            fault,
        ),
{
    lemma_base_place(data, offset, size, distance, compressed);
}

proof fn lemma_base_place(
    data: Seq<u8>,
    offset: int,
    size: nat,
    distance: nat,
    compressed: Seq<u8>,
)
    requires
        holds_at(data, offset, 6, size, encodings::high_bytes(distance) + compressed),
        distance <= offset,
        distance < 0x1_0000_0000_0000_0000,
    ensures
        ({
            let pos = offset + packs::header_bytes(6, size).len();
            &&& pack::pack_header(data, offset) == Ok::<(u8, nat, int), ObjectError>((6, size, pos))
            &&& pack::ofs_base(data, offset, pos) == Ok::<(int, int), ObjectError>(
                (offset - distance, pos + encodings::high_bytes(distance).len()),
            )
        }),
{
    let far = encodings::high_bytes(distance);
    chains::lemma_header_at(data, offset, 6, size, far + compressed);
    let pos = offset + packs::header_bytes(6, size).len();
    let before = data.take(pos);
    packs::law_offset_delta_finds_base(before, offset, distance, compressed);
    assert(data =~= before + far + compressed);
}

/// What is wrong with an object that a delta names is wrong with the delta.
pub proof fn law_fault_of_named_base_is_reported(
    files: FilesView,
    data: Seq<u8>,
    offset: int,
    size: nat,
    id: Seq<u8>,
    compressed: Seq<u8>,
    depth: nat,
    budget: nat,
    fault: ObjectError,
)
    requires
        id.len() == 20,
        holds_at(data, offset, 7, size, id + compressed),
        depth <= 32,
        budget > 0,
        object::object_within(files, numbers::to_hex(id), (budget - 1) as nat) == Err::<
            ObjectView,
            ObjectError,
        >(fault),
    ensures
        object::pack_object(files, data, offset, depth, budget) == Err::<ObjectView, ObjectError>(
            fault,
        ),
{
    chains::lemma_header_at(data, offset, 7, size, id + compressed);
    let pos = offset + packs::header_bytes(7, size).len();
    assert(data.subrange(pos, pos + 20) =~= id);
}

/// A delta whose stream is broken cannot be inflated, and what is wrong with its
/// instructions is wrong with the object.
pub proof fn law_broken_delta_is_reported(base: ObjectView, compressed: Seq<u8>, d: Seq<u8>)
    ensures
        object::zlib_inflate(compressed) is None ==> object::delta_over(base, compressed) == Err::<
            ObjectView,
            ObjectError,
        >(ObjectError::Inflate),
        object::zlib_inflate(compressed) == Some(d) ==> (delta::delta_result(base.data, d) matches
            Err(e) ==> object::delta_over(base, compressed) == Err::<ObjectView, ObjectError>(e)),
{
}

// ---------------------------------------------------------------------------
// Deltas

/// What instructions that can be carried out are followed by decides.
proof fn lemma_until_fault(
    before: Seq<u8>,
    list: Seq<Instruction>,
    bad: Seq<u8>,
    base: Seq<u8>,
    fault: ObjectError,
)
    requires
        forall|k: int| 0 <= k < list.len() ==> packs::possible(#[trigger] list[k], base.len()),
        bad.len() > 0,
        delta::delta_step(
            base,
            before + packs::program_bytes(list) + bad,
            (before.len() + packs::program_bytes(list).len()) as int,
        ) == Err::<(Seq<u8>, int), ObjectError>(fault),
    ensures
        delta::delta_output(
            base,
            before + packs::program_bytes(list) + bad,
            before.len() as int,
        ) == Err::<Seq<u8>, ObjectError>(fault),
    decreases list.len(),
{
    let data = before + packs::program_bytes(list) + bad;
    if list.len() > 0 {
        let first = list[0];
        let rest = list.drop_first();
        let further = before + packs::instruction_bytes(first);
        assert(packs::possible(first, base.len()));
        assert(data =~= before + packs::instruction_bytes(first) + (packs::program_bytes(rest)
            + bad));
        packs::lemma_instruction(before, first, packs::program_bytes(rest) + bad, base);
        assert forall|k: int| 0 <= k < rest.len() implies packs::possible(
            #[trigger] rest[k],
            base.len(),
        ) by {
            assert(rest[k] == list[k + 1]);
        }
        assert(data =~= further + packs::program_bytes(rest) + bad);
        lemma_until_fault(further, rest, bad, base, fault);
    } else {
        assert(before + packs::program_bytes(list) + bad =~= before + bad);
    }
}

/// A delta: two sizes, instructions that can be carried out, and what follows them.
pub open spec fn delta_with(
    base_size: nat,
    size: nat,
    list: Seq<Instruction>,
    bad: Seq<u8>,
) -> Seq<u8> {
    encodings::low_bytes(base_size) + encodings::low_bytes(size) + packs::program_bytes(list) + bad
}

proof fn lemma_delta_fault(
    base_size: nat,
    size: nat,
    list: Seq<Instruction>,
    bad: Seq<u8>,
    base: Seq<u8>,
    fault: ObjectError,
)
    requires
        forall|k: int| 0 <= k < list.len() ==> packs::possible(#[trigger] list[k], base.len()),
        bad.len() > 0,
        ({
            let start = encodings::low_bytes(base_size) + encodings::low_bytes(size)
                + packs::program_bytes(list);
            delta::delta_step(base, start + bad, start.len() as int) == Err::<
                (Seq<u8>, int),
                ObjectError,
            >(fault)
        }),
    ensures
        delta::delta_result(base, delta_with(base_size, size, list, bad)) == Err::<
            Seq<u8>,
            ObjectError,
        >(fault),
{
    let one = encodings::low_bytes(base_size);
    let two = encodings::low_bytes(size);
    let three = packs::program_bytes(list) + bad;
    let data = delta_with(base_size, size, list, bad);
    encodings::law_low_first_round_trip(Seq::empty(), base_size, two + three);
    assert(data =~= Seq::<u8>::empty() + one + (two + three));
    encodings::law_low_first_round_trip(one, size, three);
    assert(data =~= one + two + three);
    assert(data =~= (one + two) + packs::program_bytes(list) + bad);
    lemma_until_fault(one + two, list, bad, base, fault);
}

/// A delta's instruction with code zero, one that inserts more than there is, and
/// one that copies from behind the base are refused, wherever they stand.
#[verifier::spinoff_prover]
pub proof fn law_bad_instruction_is_reported(
    base_size: nat,
    size: nat,
    list: Seq<Instruction>,
    base: Seq<u8>,
    n: u8,
    few: Seq<u8>,
    op: u8,
    from: nat,
    count: nat,
    rest: Seq<u8>,
)
    requires
        forall|k: int| 0 <= k < list.len() ==> packs::possible(#[trigger] list[k], base.len()),
    ensures
        delta::delta_result(base, delta_with(base_size, size, list, seq![0u8] + rest)) == Err::<
            Seq<u8>,
            ObjectError,
        >(ObjectError::InvalidOpcode),
        0 < n < 128 && few.len() < n ==> delta::delta_result(
            base,
            delta_with(base_size, size, list, seq![n] + few),
        ) == Err::<Seq<u8>, ObjectError>(ObjectError::InsertOutOfRange),
        packs::possible(Instruction::Copy { op, from, size: count }, from + packs::copied(count))
            && base.len() < from + packs::copied(count) ==> delta::delta_result(
            base,
            delta_with(
                base_size,
                size,
                list,
                packs::instruction_bytes(Instruction::Copy { op, from, size: count }) + rest,
            ),
        ) == Err::<Seq<u8>, ObjectError>(ObjectError::CopyOutOfRange),
{
    let start = encodings::low_bytes(base_size) + encodings::low_bytes(size) + packs::program_bytes(
        list,
    );
    let pos = start.len() as int;
    let zero = seq![0u8] + rest;
    assert((start + zero)[pos] == 0);
    assert(0u8 & 0x80 == 0) by (bit_vector);
    lemma_delta_fault(base_size, size, list, zero, base, ObjectError::InvalidOpcode);
    if 0 < n < 128 && few.len() < n {
        let short = seq![n] + few;
        assert((start + short)[pos] == n);
        assert(n & 0x80 == 0) by (bit_vector)
            requires
                n < 128,
        ;
        lemma_delta_fault(base_size, size, list, short, base, ObjectError::InsertOutOfRange);
    }
    if packs::possible(Instruction::Copy { op, from, size: count }, from + packs::copied(count))
        && base.len() < from + packs::copied(count) {
        let bad = packs::instruction_bytes(Instruction::Copy { op, from, size: count }) + rest;
        lemma_copy_fault(start, op, from, count, rest, base);
        assert(start + bad =~= start + (seq![op] + packs::written(op, from, count, 7)) + rest);
        lemma_delta_fault(base_size, size, list, bad, base, ObjectError::CopyOutOfRange);
    }
}

proof fn lemma_copy_fault(
    before: Seq<u8>,
    op: u8,
    from: nat,
    size: nat,
    after: Seq<u8>,
    base: Seq<u8>,
)
    requires
        packs::possible(Instruction::Copy { op, from, size }, from + packs::copied(size)),
        base.len() < from + packs::copied(size),
    ensures
        delta::delta_step(
            base,
            before + (seq![op] + packs::written(op, from, size, 7)) + after,
            before.len() as int,
        ) == Err::<(Seq<u8>, int), ObjectError>(ObjectError::CopyOutOfRange),
{
    let long = Seq::new(from + packs::copied(size), |i: int| 0u8);
    let data = before + (seq![op] + packs::written(op, from, size, 7)) + after;
    let pos = before.len() as int;
    packs::lemma_instruction(before, Instruction::Copy { op, from, size }, after, long);
    assert(data[pos] == op);
    let args = packs::written(op, from, size, 7);
    packs::lemma_written_len(op, from, size, 7);
    assert(data.subrange(pos + 1, pos + 1 + delta::args_before(op, 7)) =~= args);
    assert forall|k: nat|
        k < 7 && op & (#[trigger] delta::arg_mask(k)) == 0 implies packs::argument(
        from,
        size,
        k,
    ) == 0 by {
        assert(op & packs::flag(k) == 0);
    }
    packs::lemma_copy_arg(data, pos + 1, op, from, size, 0);
    packs::lemma_copy_arg(data, pos + 1, op, from, size, 1);
    packs::lemma_copy_arg(data, pos + 1, op, from, size, 2);
    packs::lemma_copy_arg(data, pos + 1, op, from, size, 3);
    packs::lemma_copy_arg(data, pos + 1, op, from, size, 4);
    packs::lemma_copy_arg(data, pos + 1, op, from, size, 5);
    packs::lemma_copy_arg(data, pos + 1, op, from, size, 6);
    packs::lemma_four_bytes(from);
    packs::lemma_three_bytes(size);
    assert(delta::copy_offset(data, pos + 1, op) == from);
    assert(delta::copy_size(data, pos + 1, op) == packs::copied(size));
}

/// A copy whose arguments are cut off is refused, wherever it stands.
pub proof fn law_cut_off_copy_is_reported(
    base_size: nat,
    size: nat,
    list: Seq<Instruction>,
    base: Seq<u8>,
    op: u8,
    few: Seq<u8>,
)
    requires
        forall|k: int| 0 <= k < list.len() ==> packs::possible(#[trigger] list[k], base.len()),
        op & 0x80 != 0,
        few.len() < packs::written(op, 0, 0, 7).len(),
    ensures
        delta::delta_result(base, delta_with(base_size, size, list, seq![op] + few)) == Err::<
            Seq<u8>,
            ObjectError,
        >(ObjectError::ShortRead),
{
    let start = encodings::low_bytes(base_size) + encodings::low_bytes(size) + packs::program_bytes(
        list,
    );
    let cut = seq![op] + few;
    packs::lemma_written_len(op, 0, 0, 7);
    assert((start + cut)[start.len() as int] == op);
    lemma_delta_fault(base_size, size, list, cut, base, ObjectError::ShortRead);
}

/// A delta whose instructions make another size than it announces is refused, and so
/// is one that ends inside its sizes.
pub proof fn law_other_size_is_reported(
    base_size: nat,
    size: nat,
    list: Seq<Instruction>,
    base: Seq<u8>,
    endless: Seq<u8>,
)
    requires
        forall|k: int| 0 <= k < list.len() ==> packs::possible(#[trigger] list[k], base.len()),
        size < 0x1_0000_0000_0000_0000,
        packs::made_by_all(list, base).len() != size,
        forall|i: int| 0 <= i < endless.len() ==> #[trigger] endless[i] >= 128,
    ensures
        delta::delta_result(base, delta_with(base_size, size, list, Seq::empty())) == Err::<
            Seq<u8>,
            ObjectError,
        >(ObjectError::SizeMismatch),
        delta::delta_result(base, endless) == Err::<Seq<u8>, ObjectError>(ObjectError::ShortRead),
        delta::delta_result(base, encodings::low_bytes(base_size) + endless) == Err::<
            Seq<u8>,
            ObjectError,
        >(ObjectError::ShortRead),
{
    let one = encodings::low_bytes(base_size);
    let two = encodings::low_bytes(size);
    let three = packs::program_bytes(list);
    let data = delta_with(base_size, size, list, Seq::empty());
    encodings::law_low_first_round_trip(Seq::empty(), base_size, two + three);
    assert(data =~= Seq::<u8>::empty() + one + (two + three));
    encodings::law_low_first_round_trip(one, size, three);
    assert(data =~= one + two + three);
    packs::lemma_program(one + two, list, base);
    lemma_endless(endless, 0);
    let second = one + endless;
    encodings::law_low_first_round_trip(Seq::empty(), base_size, endless);
    assert(second =~= Seq::<u8>::empty() + one + endless);
    assert forall|i: int| one.len() <= i < second.len() implies #[trigger] second[i] >= 128 by {
        assert(second[i] == endless[i - one.len()]);
    }
    lemma_endless(second, one.len() as int);
}

// ---------------------------------------------------------------------------
// Indexes

/// An index has a signature, is of version two, and holds its first table.
pub proof fn law_odd_index_is_reported(data: Seq<u8>, oid: Seq<char>)
    ensures
        data.len() < 8 || data[0] != 0xff || data[1] != 0x74 || data[2] != 0x4f || data[3] != 0x63
            ==> idx::idx_offset(data, oid) == Err::<nat, ObjectError>(ObjectError::UnsupportedIdx),
        data.len() >= 8 && data[0] == 0xff && data[1] == 0x74 && data[2] == 0x4f && data[3] == 0x63
            && packs::word_at(data, 4) != 2 ==> idx::idx_offset(data, oid) == Err::<
            nat,
            ObjectError,
        >(ObjectError::UnsupportedIdxVersion),
        8 <= data.len() < 1032 && data[0] == 0xff && data[1] == 0x74 && data[2] == 0x4f && data[3]
            == 0x63 && packs::word_at(data, 4) == 2 ==> idx::idx_offset(data, oid) == Err::<
            nat,
            ObjectError,
        >(ObjectError::ShortIdx),
{
    if data.len() >= 8 {
        let start = data.take(4);
        assert(start[0] == data[0] && start[1] == data[1] && start[2] == data[2] && start[3]
            == data[3]);
        if data[0] == 0xff && data[1] == 0x74 && data[2] == 0x4f && data[3] == 0x63 {
            assert(start =~= seq![0xffu8, 0x74u8, 0x4fu8, 0x63u8]);
        }
    }
}

/// An id of another length than forty is refused.
pub proof fn law_odd_id_is_reported(oid: Seq<char>)
    requires
        encode_utf8(oid).len() != 40,
    ensures
        idx::oid_bytes(oid) == Err::<Seq<u8>, ObjectError>(ObjectError::BadOid),
{
}

/// A pair of digits is a byte, and so is a plus sign with a digit; any other pair is
/// none.
pub proof fn law_pairs_are_bytes(a: u8, b: u8, x: int, y: int)
    ensures
        urls::is_digit_of(a, x) && urls::is_digit_of(b, y) ==> idx::pair_value(a, b) == Some(
            (16 * x + y) as u8,
        ),
        a == 0x2b && urls::is_digit_of(b, y) ==> idx::pair_value(a, b) == Some(y as u8),
        !urls::is_digit(b) || !urls::is_digit(a) && a != 0x2b ==> idx::pair_value(a, b) is None,
{
}

/// An id with a pair that is no byte is refused.
pub proof fn law_id_without_bytes_is_reported(oid: Seq<char>, i: int)
    requires
        encode_utf8(oid).len() == 40,
        0 <= i < 20,
        !urls::is_digit(encode_utf8(oid)[2 * i + 1]) || !urls::is_digit(encode_utf8(oid)[2 * i])
            && encode_utf8(oid)[2 * i] != 0x2b,
    ensures
        idx::oid_bytes(oid) == Err::<Seq<u8>, ObjectError>(ObjectError::BadHex),
{
    let b = encode_utf8(oid);
    law_pairs_are_bytes(b[2 * i], b[2 * i + 1], 0, 0);
    assert(idx::pair_at(b, i) is None);
}

// ---------------------------------------------------------------------------
// Trees

proof fn lemma_tree_fault(before: Seq<u8>, items: Seq<Item>, bad: Seq<u8>, fault: ObjectError)
    requires
        forall|i: int| 0 <= i < items.len() ==> storable(#[trigger] items[i]),
        bad.len() > 0,
        tree::entry_at(
            before + tree_bytes(items) + bad,
            (before.len() + tree_bytes(items).len()) as int,
        ) == Err::<(EntryView, int), ObjectError>(fault),
    ensures
        tree::entries_from(before + tree_bytes(items) + bad, before.len() as int) == Err::<
            Seq<EntryView>,
            ObjectError,
        >(fault),
    decreases items.len(),
{
    let data = before + tree_bytes(items) + bad;
    if items.len() > 0 {
        let first = items[0];
        let rest = items.drop_first();
        let further = before + item_bytes(first);
        assert(storable(first));
        assert(data =~= before + item_bytes(first) + (tree_bytes(rest) + bad));
        objects::lemma_item(before, first, tree_bytes(rest) + bad);
        assert forall|i: int| 0 <= i < rest.len() implies storable(#[trigger] rest[i]) by {
            assert(rest[i] == items[i + 1]);
        }
        assert(data =~= further + tree_bytes(rest) + bad);
        lemma_tree_fault(further, rest, bad, fault);
    }
}

/// A tree whose last entry has no space, no NUL byte or no whole id is refused,
/// whatever entries stand before it.
pub proof fn law_cut_off_tree_is_reported(
    items: Seq<Item>,
    word: Seq<u8>,
    mode: Seq<char>,
    name: Seq<u8>,
    few: Seq<u8>,
)
    requires
        forall|i: int| 0 <= i < items.len() ==> storable(#[trigger] items[i]),
        word.len() > 0 && !word.contains(0x20u8),
        !mode.contains(' '),
        !name.contains(0u8),
        few.len() < 20,
    ensures
        tree::entries_from(tree_bytes(items) + word, 0) == Err::<Seq<EntryView>, ObjectError>(
            ObjectError::BadTreeMode,
        ),
        tree::entries_from(tree_bytes(items) + (encode_utf8(mode) + seq![0x20u8] + name), 0)
            == Err::<Seq<EntryView>, ObjectError>(ObjectError::BadTreeName),
        tree::entries_from(
            tree_bytes(items) + (encode_utf8(mode) + seq![0x20u8] + name + seq![0u8] + few),
            0,
        ) == Err::<Seq<EntryView>, ObjectError>(ObjectError::BadTreeOid),
{
    let none: Seq<u8> = Seq::empty();
    let before = tree_bytes(items);
    let pos = before.len() as int;
    let start = encode_utf8(mode) + seq![0x20u8];
    lemma_no_mode(before, word);
    assert(none + before + word =~= before + word);
    lemma_tree_fault(none, items, word, ObjectError::BadTreeMode);
    lemma_mode_read(before, mode, name);
    lemma_mode_read(before, mode, name + seq![0u8] + few);
    let cut = start + name;
    let one = before + cut;
    let end = pos + encode_utf8(mode).len() + 1;
    assert(one.skip(end) =~= name);
    assert forall|j: int| 0 <= j < name.len() implies name[j] != 0 by {
        assert(name.contains(name[j]));
    }
    text::lemma_until_is(name, 0u8, name.len() as int);
    assert(one =~= before + (start + name));
    assert(none + before + cut =~= one);
    lemma_tree_fault(none, items, cut, ObjectError::BadTreeName);
    let short = start + name + seq![0u8] + few;
    let two = before + short;
    let tail = name + seq![0u8] + few;
    assert(two =~= before + (start + tail));
    assert(short =~= start + tail);
    assert(two.skip(end) =~= tail);
    assert forall|j: int| 0 <= j < name.len() implies tail[j] != 0 by {
        assert(tail[j] == name[j]);
    }
    assert(tail[name.len() as int] == 0);
    text::lemma_until_is(tail, 0u8, name.len() as int);
    assert(none + before + short =~= two);
    lemma_tree_fault(none, items, short, ObjectError::BadTreeOid);
}

/// A tree with a mode that is no text is refused, whatever entries stand before it.
pub proof fn law_odd_mode_is_reported(items: Seq<Item>, mode: Seq<u8>, tail: Seq<u8>)
    requires
        forall|i: int| 0 <= i < items.len() ==> storable(#[trigger] items[i]),
        !mode.contains(0x20u8),
        !valid_utf8(mode),
    ensures
        tree::entries_from(tree_bytes(items) + (mode + seq![0x20u8] + tail), 0) == Err::<
            Seq<EntryView>,
            ObjectError,
        >(ObjectError::BadTreeModeText),
{
    let none: Seq<u8> = Seq::empty();
    let before = tree_bytes(items);
    let pos = before.len() as int;
    let bad = mode + seq![0x20u8] + tail;
    let data = before + bad;
    assert(data.skip(pos) =~= bad);
    assert forall|j: int| 0 <= j < mode.len() implies bad[j] != 0x20 by {
        assert(bad[j] == mode[j]);
        assert(mode.contains(mode[j]));
    }
    assert(bad[mode.len() as int] == 0x20);
    text::lemma_until_is(bad, 0x20u8, mode.len() as int);
    assert(data.subrange(pos, pos + mode.len()) =~= mode);
    assert(none + before + bad =~= data);
    lemma_tree_fault(none, items, bad, ObjectError::BadTreeModeText);
}

proof fn lemma_no_mode(before: Seq<u8>, word: Seq<u8>)
    requires
        !word.contains(0x20u8),
    ensures
        tree::entry_at(before + word, before.len() as int) == Err::<(EntryView, int), ObjectError>(
            ObjectError::BadTreeMode,
        ),
{
    let data = before + word;
    let pos = before.len() as int;
    assert(data.skip(pos) =~= word);
    assert forall|j: int| 0 <= j < word.len() implies word[j] != 0x20 by {
        assert(word.contains(word[j]));
    }
    text::lemma_until_is(word, 0x20u8, word.len() as int);
}

proof fn lemma_mode_read(before: Seq<u8>, mode: Seq<char>, tail: Seq<u8>)
    requires
        !mode.contains(' '),
    ensures
        ({
            let data = before + (encode_utf8(mode) + seq![0x20u8] + tail);
            let pos = before.len() as int;
            let end = pos + encode_utf8(mode).len();
            &&& bytes::byte_index(data, pos, 0x20) == Some(end)
            &&& data.subrange(pos, end) == encode_utf8(mode)
            &&& valid_utf8(data.subrange(pos, end))
        }),
{
    let m = encode_utf8(mode);
    let data = before + (m + seq![0x20u8] + tail);
    let pos = before.len() as int;
    let rest = data.skip(pos);
    assert(rest =~= m + seq![0x20u8] + tail);
    assert(0x20u8 as char == ' ');
    text::lemma_encode_has_no(mode, 0x20);
    assert forall|j: int| 0 <= j < m.len() implies rest[j] != 0x20 by {
        assert(rest[j] == m[j]);
        assert(m.contains(m[j]));
    }
    assert(rest[m.len() as int] == 0x20);
    text::lemma_until_is(rest, 0x20u8, m.len() as int);
    assert(data.subrange(pos, pos + m.len()) =~= m);
    encode_utf8_valid_utf8(mode);
}

/// What is not a tree is not listed, and what cannot be read is not either.
pub proof fn law_only_trees_are_listed(files: FilesView, oid: Seq<char>)
    ensures
        object::object(files, oid) matches Ok(o) ==> if o.kind == Kind::Tree {
            reader::tree_at(files, oid) == tree::entries_from(o.data, 0)
        } else {
            reader::tree_at(files, oid) == Err::<Seq<EntryView>, ObjectError>(ObjectError::NotATree)
        },
        object::object(files, oid) matches Err(e) ==> reader::tree_at(files, oid) == Err::<
            Seq<EntryView>,
            ObjectError,
        >(e),
{
}

}
