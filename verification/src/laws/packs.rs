//! Packs: headers, deltas and indexes.

use vstd::prelude::*;
use crate::git::bytes::{self, ObjectError, WORD};
use crate::git::object::{self, ObjectView};
use crate::git::{delta, idx, pack};
use crate::laws::encodings;
use crate::numbers;
use crate::repo::{self, FilesView};

verus! {

// ---------------------------------------------------------------------------
// Headers

/// The header of an object in a pack: its type and its size.
pub open spec fn header_bytes(kind: u8, size: nat) -> Seq<u8> {
    if size < 16 {
        seq![(kind * 16 + size) as u8]
    } else {
        seq![(128 + kind * 16 + size % 16) as u8] + encodings::low_bytes(size / 16)
    }
}

/// An object's header is read back as the same type and size, wherever it stands.
pub proof fn law_pack_header_round_trip(before: Seq<u8>, kind: u8, size: nat, after: Seq<u8>)
    requires
        kind < 8,
        size < WORD,
    ensures
        pack::pack_header(before + header_bytes(kind, size) + after, before.len() as int) == Ok::<
            (u8, nat, int),
            ObjectError,
        >((kind, size, (before.len() + header_bytes(kind, size).len()) as int)),
{
    let data = before + header_bytes(kind, size) + after;
    let pos = before.len() as int;
    let c = data[pos];
    if size < 16 {
        assert(c == (kind * 16 + size) as u8);
        assert(c / 16 == kind);
        assert((c / 16) % 8 == kind);
        assert(c % 16 == size);
    } else {
        let first = (128 + kind * 16 + size % 16) as u8;
        let rest = encodings::low_bytes(size / 16);
        assert(c == first);
        assert(c / 16 == 8 + kind);
        assert((c / 16) % 8 == kind);
        assert(c % 16 == size % 16);
        let further = before.push(first);
        assert(data =~= further + rest + after);
        encodings::law_low_first_round_trip(further, size / 16, after);
        assert(size % 16 + 16 * (size / 16) == size);
    }
}

/// The distance of an offset delta is read back, and leads to the base that
/// stands so far before.
pub proof fn law_offset_delta_finds_base(
    before: Seq<u8>,
    offset: int,
    distance: nat,
    after: Seq<u8>,
)
    requires
        distance <= offset,
        distance < WORD,
    ensures
        pack::ofs_base(
            before + encodings::high_bytes(distance) + after,
            offset,
            before.len() as int,
        ) == Ok::<(int, int), ObjectError>(
            (offset - distance, (before.len() + encodings::high_bytes(distance).len()) as int),
        ),
{
    encodings::law_high_first_round_trip(before, distance, after);
}

/// An object that stands whole in a pack is read back.
pub proof fn law_packed_object_is_read(
    files: FilesView,
    oid: Seq<char>,
    name: Seq<char>,
    before: Seq<u8>,
    kind: u8,
    size: nat,
    after: Seq<u8>,
    body: Seq<u8>,
)
    requires
        object::loose_object(files, oid) is Err,
        object::locate(files.packs, 0, oid) == Some((name, before.len())),
        repo::stored(files.packs, name) == Some(before + header_bytes(kind, size) + after),
        object::is_pack(before + header_bytes(kind, size) + after),
        1 <= kind <= 4,
        size < WORD,
        object::zlib_inflate(after) == Some(body),
    ensures
        object::object(files, oid) == Ok::<ObjectView, ObjectError>(
            ObjectView { kind: object::kind_numbered(kind), data: body },
        ),
{
    law_pack_header_round_trip(before, kind, size, after);
    let data = before + header_bytes(kind, size) + after;
    let pos = (before.len() + header_bytes(kind, size).len()) as int;
    assert(data.skip(pos) =~= after);
}

// ---------------------------------------------------------------------------
// Deltas

/// An instruction of a delta.
pub enum Instruction {
    /// Copy from the base.
    Copy {
        /// The code, whose low seven bits say which arguments are written.
        op: u8,
        /// Where in the base, as it is written.
        from: nat,
        /// How many bytes, as it is written: zero stands for 65536.
        size: nat,
    },
    /// Insert these bytes.
    Insert {
        /// The bytes.
        bytes: Seq<u8>,
    },
}

/// Argument `k` of a copy: four bytes of its place, then three of its size.
pub open spec fn argument(from: nat, size: nat, k: nat) -> nat {
    if k == 0 {
        from % 0x100
    } else if k == 1 {
        from / 0x100 % 0x100
    } else if k == 2 {
        from / 0x1_0000 % 0x100
    } else if k == 3 {
        from / 0x100_0000
    } else if k == 4 {
        size % 0x100
    } else if k == 5 {
        size / 0x100 % 0x100
    } else {
        size / 0x1_0000
    }
}

/// The bit of a copy's code that says that argument `k` is written.
pub open spec fn flag(k: nat) -> u8 {
    if k == 0 {
        1
    } else if k == 1 {
        2
    } else if k == 2 {
        4
    } else if k == 3 {
        8
    } else if k == 4 {
        16
    } else if k == 5 {
        32
    } else {
        64
    }
}

/// The first `k` arguments of a copy, those that are written.
pub open spec fn written(op: u8, from: nat, size: nat, k: nat) -> Seq<u8>
    decreases k,
{
    if k == 0 {
        Seq::empty()
    } else {
        let before = written(op, from, size, (k - 1) as nat);
        if op & flag((k - 1) as nat) != 0 {
            before.push(argument(from, size, (k - 1) as nat) as u8)
        } else {
            before
        }
    }
}

/// How many bytes a copy copies.
pub open spec fn copied(size: nat) -> nat {
    if size == 0 {
        0x1_0000
    } else {
        size
    }
}

/// True when an instruction can be written and carried out over a base of that
/// length: arguments that are not written are zero.
pub open spec fn possible(i: Instruction, base: nat) -> bool {
    match i {
        Instruction::Copy { op, from, size } => {
            &&& op & 0x80 != 0
            &&& from + copied(size) <= base
            &&& from < 0x1_0000_0000
            &&& size < 0x100_0000
            &&& forall|k: nat|
                k < 7 && op & (#[trigger] flag(k)) == 0 ==> argument(from, size, k) == 0
        },
        Instruction::Insert { bytes } => 0 < bytes.len() < 128,
    }
}

/// The bytes of an instruction.
pub open spec fn instruction_bytes(i: Instruction) -> Seq<u8> {
    match i {
        Instruction::Copy { op, from, size } => seq![op] + written(op, from, size, 7),
        Instruction::Insert { bytes } => seq![bytes.len() as u8] + bytes,
    }
}

/// What an instruction makes over a base.
pub open spec fn made(i: Instruction, base: Seq<u8>) -> Seq<u8> {
    match i {
        Instruction::Copy { op, from, size } => base.subrange(
            from as int,
            (from + copied(size)) as int,
        ),
        Instruction::Insert { bytes } => bytes,
    }
}

/// What instructions make over a base.
pub open spec fn made_by_all(list: Seq<Instruction>, base: Seq<u8>) -> Seq<u8>
    decreases list.len(),
{
    if list.len() == 0 {
        Seq::empty()
    } else {
        made(list[0], base) + made_by_all(list.drop_first(), base)
    }
}

/// The bytes of instructions.
pub open spec fn program_bytes(list: Seq<Instruction>) -> Seq<u8>
    decreases list.len(),
{
    if list.len() == 0 {
        Seq::empty()
    } else {
        instruction_bytes(list[0]) + program_bytes(list.drop_first())
    }
}

/// A delta: the size of the base, the size of the result, and instructions.
pub open spec fn delta_bytes(list: Seq<Instruction>, base: Seq<u8>) -> Seq<u8> {
    encodings::low_bytes(base.len()) + encodings::low_bytes(made_by_all(list, base).len())
        + program_bytes(list)
}

/// Where the arguments of a copy stand.
proof fn lemma_written(op: u8, from: nat, size: nat, k: nat, m: nat)
    requires
        k < m,
    ensures
        written(op, from, size, m).len() == delta::args_before(op, m),
        delta::args_before(op, k) <= delta::args_before(op, m),
        op & delta::arg_mask(k) != 0 ==> delta::args_before(op, k) < delta::args_before(op, m)
            && written(op, from, size, m)[delta::args_before(op, k) as int] == argument(
            from,
            size,
            k,
        ) as u8,
    decreases m,
{
    lemma_written_len(op, from, size, m);
    if k + 1 < m {
        lemma_written(op, from, size, k, (m - 1) as nat);
    } else {
        lemma_written_len(op, from, size, k);
    }
}

pub proof fn lemma_written_len(op: u8, from: nat, size: nat, m: nat)
    ensures
        written(op, from, size, m).len() == delta::args_before(op, m),
    decreases m,
{
    if m > 0 {
        lemma_written_len(op, from, size, (m - 1) as nat);
    }
}

/// A number below 2^32 is the sum of its four bytes.
#[verifier::spinoff_prover]
pub proof fn lemma_four_bytes(n: nat)
    requires
        n < 0x1_0000_0000,
    ensures
        n % 0x100 + 0x100 * (n / 0x100 % 0x100) + 0x1_0000 * (n / 0x1_0000 % 0x100) + 0x100_0000 * (
        n / 0x100_0000) == n,
        n / 0x100_0000 < 0x100,
{
    let a = n / 0x100;
    let b = a / 0x100;
    let c = b / 0x100;
    assert(b == n / 0x1_0000);
    assert(c == n / 0x100_0000);
    assert(a == b * 0x100 + a % 0x100);
    assert(b == c * 0x100 + b % 0x100);
}

/// A number below 2^24 is the sum of its three bytes.
pub proof fn lemma_three_bytes(n: nat)
    requires
        n < 0x100_0000,
    ensures
        n % 0x100 + 0x100 * (n / 0x100 % 0x100) + 0x1_0000 * (n / 0x1_0000) == n,
        n / 0x1_0000 < 0x100,
{
}

/// A copy's argument is read back.
pub proof fn lemma_copy_arg(data: Seq<u8>, pos: int, op: u8, from: nat, size: nat, k: nat)
    requires
        k < 7,
        from < 0x1_0000_0000,
        size < 0x100_0000,
        0 <= pos,
        pos + delta::args_before(op, 7) <= data.len(),
        data.subrange(pos, pos + delta::args_before(op, 7)) == written(op, from, size, 7),
        op & delta::arg_mask(k) == 0 ==> argument(from, size, k) == 0,
    ensures
        delta::copy_arg(data, pos, op, k) == argument(from, size, k),
{
    lemma_written(op, from, size, k, 7);
    lemma_four_bytes(from);
    lemma_three_bytes(size);
    if op & delta::arg_mask(k) != 0 {
        let n = delta::args_before(op, k) as int;
        assert(data.subrange(pos, pos + delta::args_before(op, 7))[n] == data[pos + n]);
        assert(argument(from, size, k) < 0x100);
    }
}

proof fn lemma_copy(before: Seq<u8>, op: u8, from: nat, size: nat, after: Seq<u8>, base: Seq<u8>)
    requires
        possible(Instruction::Copy { op, from, size }, base.len()),
    ensures
        delta::delta_step(
            base,
            before + (seq![op] + written(op, from, size, 7)) + after,
            before.len() as int,
        ) == Ok::<(Seq<u8>, int), ObjectError>(
            (
                base.subrange(from as int, (from + copied(size)) as int),
                before.len() as int + 1 + written(op, from, size, 7).len(),
            ),
        ),
{
    let args = written(op, from, size, 7);
    let data = before + (seq![op] + args) + after;
    let pos = before.len() as int;
    assert(data[pos] == op);
    lemma_written_len(op, from, size, 7);
    assert(data.subrange(pos + 1, pos + 1 + delta::args_before(op, 7)) =~= args);
    assert forall|k: nat| k < 7 && op & (#[trigger] delta::arg_mask(k)) == 0 implies argument(
        from,
        size,
        k,
    ) == 0 by {
        assert(op & flag(k) == 0);
    }
    lemma_copy_arg(data, pos + 1, op, from, size, 0);
    lemma_copy_arg(data, pos + 1, op, from, size, 1);
    lemma_copy_arg(data, pos + 1, op, from, size, 2);
    lemma_copy_arg(data, pos + 1, op, from, size, 3);
    lemma_copy_arg(data, pos + 1, op, from, size, 4);
    lemma_copy_arg(data, pos + 1, op, from, size, 5);
    lemma_copy_arg(data, pos + 1, op, from, size, 6);
    lemma_four_bytes(from);
    lemma_three_bytes(size);
    assert(delta::copy_offset(data, pos + 1, op) == from);
    assert(delta::copy_size(data, pos + 1, op) == copied(size));
}

proof fn lemma_insert(before: Seq<u8>, bytes: Seq<u8>, after: Seq<u8>, base: Seq<u8>)
    requires
        0 < bytes.len() < 128,
    ensures
        delta::delta_step(
            base,
            before + (seq![bytes.len() as u8] + bytes) + after,
            before.len() as int,
        ) == Ok::<(Seq<u8>, int), ObjectError>((bytes, before.len() as int + 1 + bytes.len())),
{
    let data = before + (seq![bytes.len() as u8] + bytes) + after;
    let pos = before.len() as int;
    let n = bytes.len() as u8;
    assert(data[pos] == n);
    assert(n & 0x80 == 0) by (bit_vector)
        requires
            n < 128,
    ;
    assert(data.subrange(pos + 1, pos + 1 + n) =~= bytes);
}

pub proof fn lemma_instruction(before: Seq<u8>, i: Instruction, after: Seq<u8>, base: Seq<u8>)
    requires
        possible(i, base.len()),
    ensures
        delta::delta_step(base, before + instruction_bytes(i) + after, before.len() as int) == Ok::<
            (Seq<u8>, int),
            ObjectError,
        >((made(i, base), (before.len() + instruction_bytes(i).len()) as int)),
{
    match i {
        Instruction::Copy { op, from, size } => lemma_copy(before, op, from, size, after, base),
        Instruction::Insert { bytes } => lemma_insert(before, bytes, after, base),
    }
}

pub proof fn lemma_program(before: Seq<u8>, list: Seq<Instruction>, base: Seq<u8>)
    requires
        forall|k: int| 0 <= k < list.len() ==> possible(#[trigger] list[k], base.len()),
    ensures
        delta::delta_output(base, before + program_bytes(list), before.len() as int) == Ok::<
            Seq<u8>,
            ObjectError,
        >(made_by_all(list, base)),
    decreases list.len(),
{
    let data = before + program_bytes(list);
    if list.len() > 0 {
        let first = list[0];
        let rest = list.drop_first();
        let further = before + instruction_bytes(first);
        assert(possible(first, base.len()));
        assert(data =~= before + instruction_bytes(first) + program_bytes(rest));
        lemma_instruction(before, first, program_bytes(rest), base);
        assert forall|k: int| 0 <= k < rest.len() implies possible(
            #[trigger] rest[k],
            base.len(),
        ) by {
            assert(rest[k] == list[k + 1]);
        }
        lemma_program(further, rest, base);
        assert(data =~= further + program_bytes(rest));
    }
}

/// A delta gives the result that its instructions make over the base.
pub proof fn law_delta_round_trip(list: Seq<Instruction>, base: Seq<u8>)
    requires
        forall|k: int| 0 <= k < list.len() ==> possible(#[trigger] list[k], base.len()),
        made_by_all(list, base).len() < WORD,
    ensures
        delta::delta_result(base, delta_bytes(list, base)) == Ok::<Seq<u8>, ObjectError>(
            made_by_all(list, base),
        ),
{
    let one = encodings::low_bytes(base.len());
    let two = encodings::low_bytes(made_by_all(list, base).len());
    let three = program_bytes(list);
    let data = delta_bytes(list, base);
    encodings::law_low_first_round_trip(Seq::empty(), base.len(), two + three);
    assert(data =~= Seq::<u8>::empty() + one + (two + three));
    encodings::law_low_first_round_trip(one, made_by_all(list, base).len(), three);
    lemma_program(one + two, list, base);
    assert(data =~= one + two + three);
}

/// A delta over a base is read back as the result over that base, of the same
/// kind.
pub proof fn law_delta_object_is_read(
    base: ObjectView,
    list: Seq<Instruction>,
    compressed: Seq<u8>,
)
    requires
        forall|k: int| 0 <= k < list.len() ==> possible(#[trigger] list[k], base.data.len()),
        made_by_all(list, base.data).len() < WORD,
        object::zlib_inflate(compressed) == Some(delta_bytes(list, base.data)),
    ensures
        object::delta_over(base, compressed) == Ok::<ObjectView, ObjectError>(
            ObjectView { kind: base.kind, data: made_by_all(list, base.data) },
        ),
{
    law_delta_round_trip(list, base.data);
}

// ---------------------------------------------------------------------------
// Indexes

/// An object that an index lists.
pub struct Row {
    /// The bytes of its id.
    pub id: Seq<u8>,
    /// Where it stands in the pack.
    pub offset: nat,
}

/// How many of the rows have ids whose first byte is at most `b`.
pub open spec fn rows_up_to(rows: Seq<Row>, b: int) -> nat
    decreases rows.len(),
{
    if rows.len() == 0 {
        0
    } else {
        rows_up_to(rows.drop_last(), b) + (if rows.last().id[0] <= b {
            1nat
        } else {
            0nat
        })
    }
}

/// The number that four bytes write, the highest first.
pub open spec fn word_at(data: Seq<u8>, pos: int) -> nat {
    data[pos] as nat * 0x100_0000 + data[pos + 1] as nat * 0x1_0000 + data[pos + 2] as nat * 0x100
        + data[pos + 3] as nat
}

/// True when an index of `n` rows holds that offset for row `i`: as it is when it
/// has at most 31 bits, else in a place of the table of 64-bit offsets.
pub open spec fn holds_offset(data: Seq<u8>, n: int, i: int, offset: nat) -> bool {
    let raw = word_at(data, 1032 + 24 * n + 4 * i);
    if offset < 0x8000_0000 {
        raw == offset
    } else {
        let at = 1032 + 28 * n + 8 * (raw - 0x8000_0000);
        &&& raw >= 0x8000_0000
        &&& at + 8 <= data.len()
        &&& word_at(data, at) * 0x1_0000_0000 + word_at(data, at + 4) == offset
    }
}

/// True when `data` is an index, of version two, of the rows: a fan-out table by
/// the ids' first bytes, the ids, their checksums and their offsets.
pub open spec fn is_index_of(data: Seq<u8>, rows: Seq<Row>) -> bool {
    &&& data.len() >= 1032 + 28 * rows.len()
    &&& data.take(4) == seq![0xffu8, 0x74u8, 0x4fu8, 0x63u8]
    &&& word_at(data, 4) == 2
    &&& forall|b: int|
        0 <= b < 256 ==> #[trigger] word_at(data, 8 + 4 * b) == rows_up_to(rows, b)
    &&& forall|i: int|
        0 <= i < rows.len() ==> #[trigger] data.subrange(
            1032 + 20 * i,
            1032 + 20 * i + 20,
        ) == rows[i].id
    &&& forall|i: int|
        0 <= i < rows.len() ==> #[trigger] holds_offset(data, rows.len() as int, i, rows[i].offset)
}

/// True when the rows can stand in an index: ids of twenty bytes, each once, in
/// the order of their first bytes.
pub open spec fn indexable(rows: Seq<Row>) -> bool {
    &&& forall|i: int| 0 <= i < rows.len() ==> (#[trigger] rows[i]).id.len() == 20
    &&& forall|i: int, j: int|
        0 <= i < j < rows.len() ==> (#[trigger] rows[i]).id[0] <= (#[trigger] rows[j]).id[0]
            && rows[i].id != rows[j].id
}

/// The rows up to a first byte come first.
proof fn lemma_rows_up_to(rows: Seq<Row>, b: int, k: int)
    requires
        indexable(rows),
        0 <= k < rows.len(),
    ensures
        rows_up_to(rows, b) <= rows.len(),
        rows[k].id[0] <= b <==> k < rows_up_to(rows, b),
    decreases rows.len(),
{
    let rest = rows.drop_last();
    assert forall|i: int| 0 <= i < rest.len() implies (#[trigger] rest[i]).id.len() == 20 by {
        assert(rest[i] == rows[i]);
    }
    assert forall|i: int, j: int| 0 <= i < j < rest.len() implies (#[trigger] rest[i]).id[0] <= (
    #[trigger] rest[j]).id[0] && rest[i].id != rest[j].id by {
        assert(rest[i] == rows[i] && rest[j] == rows[j]);
    }
    assert(indexable(rest));
    if rest.len() > 0 {
        let last = rest.len() - 1;
        lemma_rows_up_to(rest, b, last as int);
        assert(rest[last as int] == rows[last as int]);
        if k < rest.len() {
            lemma_rows_up_to(rest, b, k);
            assert(rest[k] == rows[k]);
        }
        assert(rows[last as int].id[0] <= rows[rows.len() - 1].id[0]);
    }
}

/// The fan-out table, as it is read.
proof fn lemma_fan_out(data: Seq<u8>, rows: Seq<Row>, b: int)
    requires
        is_index_of(data, rows),
        0 <= b < 256,
    ensures
        bytes::be32(data, idx::FANOUT + 4 * b) == rows_up_to(rows, b),
{
    assert(word_at(data, 8 + 4 * b) == rows_up_to(rows, b));
}

/// An index leads from the id of every object that it lists to the object's
/// place in the pack.
pub proof fn law_index_finds_every_row(data: Seq<u8>, rows: Seq<Row>, k: int)
    requires
        indexable(rows),
        is_index_of(data, rows),
        0 <= k < rows.len(),
    ensures
        idx::idx_offset(data, numbers::to_hex(rows[k].id)) == Ok::<nat, ObjectError>(
            rows[k].offset,
        ),
{
    let id = rows[k].id;
    let first = id[0] as int;
    encodings::law_hex_id_round_trip(id);
    lemma_rows_up_to(rows, first, k);
    lemma_rows_up_to(rows, first - 1, k);
    lemma_rows_up_to(rows, 255, rows.len() - 1);
    lemma_fan_out(data, rows, first);
    if first > 0 {
        lemma_fan_out(data, rows, first - 1);
    }
    let start = if first == 0 {
        0
    } else {
        bytes::be32(data, idx::FANOUT + 4 * (first - 1)) as int
    };
    let end = bytes::be32(data, idx::FANOUT + 4 * first) as int;
    lemma_fan_out(data, rows, 255);
    assert(rows_up_to(rows, 255) == rows.len());
    assert(start <= k < end);
    idx::lemma_find_row(data, start, end, id);
    assert(idx::row_is(data, k, id)) by {
        assert(data.subrange(idx::NAMES + 20 * k, idx::NAMES + 20 * k + 20) == rows[k].id);
    }
    let found = idx::find_row(data, start, end, id)->0;
    assert(found == k) by {
        assert(found <= k);
        assert(0 <= found < rows.len());
        assert(data.subrange(idx::NAMES + 20 * found, idx::NAMES + 20 * found + 20)
            == rows[found].id);
    }
    assert(holds_offset(data, rows.len() as int, k, rows[k].offset));
}

/// An index says of an id that it does not list that it is not there.
pub proof fn law_index_knows_what_is_missing(data: Seq<u8>, rows: Seq<Row>, id: Seq<u8>)
    requires
        indexable(rows),
        is_index_of(data, rows),
        id.len() == 20,
        forall|i: int| 0 <= i < rows.len() ==> (#[trigger] rows[i]).id != id,
    ensures
        idx::idx_offset(data, numbers::to_hex(id)) == Err::<nat, ObjectError>(
            ObjectError::NotInIdx,
        ),
{
    let first = id[0] as int;
    encodings::law_hex_id_round_trip(id);
    lemma_fan_out(data, rows, first);
    if first > 0 {
        lemma_fan_out(data, rows, first - 1);
    }
    let start = if first == 0 {
        0
    } else {
        bytes::be32(data, idx::FANOUT + 4 * (first - 1)) as int
    };
    let end = bytes::be32(data, idx::FANOUT + 4 * first) as int;
    lemma_rows_bound(rows, first);
    lemma_rows_bound(rows, first - 1);
    idx::lemma_find_row(data, start, end, id);
    if idx::find_row(data, start, end, id) is Some {
        let found = idx::find_row(data, start, end, id)->0;
        assert(0 <= found < rows.len());
        assert(data.subrange(idx::NAMES + 20 * found, idx::NAMES + 20 * found + 20)
            == rows[found].id);
    }
}

proof fn lemma_rows_bound(rows: Seq<Row>, b: int)
    ensures
        rows_up_to(rows, b) <= rows.len(),
    decreases rows.len(),
{
    if rows.len() > 0 {
        lemma_rows_bound(rows.drop_last(), b);
    }
}

}
