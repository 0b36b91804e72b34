//! Pack index files, version two: where in a pack an object stands.

use vstd::prelude::*;
use vstd::slice::slice_subrange;
use vstd::utf8::*;
use crate::git::bytes::{self, be_u32, be_u64, same_bytes, ObjectError};
use crate::numbers::{self, hex};

verus! {

/// Where the fan-out table starts.
pub const FANOUT: u64 = 8;

/// Where the table of object ids starts.
pub const NAMES: u64 = 1032;

/// The byte that two characters write in hexadecimal; a plus sign may take the
/// place of the first digit.
pub open spec fn pair_value(a: u8, b: u8) -> Option<u8> {
    match (numbers::hex_value(a), numbers::hex_value(b)) {
        (Some(x), Some(y)) => Some((16 * x + y) as u8),
        (None, Some(y)) => if a == 0x2b {
            Some(y)
        } else {
            None
        },
        _ => None,
    }
}

/// The twenty bytes that an object id of forty characters writes.
pub open spec fn oid_bytes(oid: Seq<char>) -> Result<Seq<u8>, ObjectError> {
    let b = encode_utf8(oid);
    if b.len() != 40 {
        Err(ObjectError::BadOid)
    } else if exists|i: int| 0 <= i < 20 && #[trigger] pair_at(b, i) is None {
        Err(ObjectError::BadHex)
    } else {
        Ok(Seq::new(20, |i: int| pair_at(b, i)->0))
    }
}

/// The byte that the pair of characters with number `i` writes.
pub open spec fn pair_at(b: Seq<u8>, i: int) -> Option<u8> {
    pair_value(b[2 * i], b[2 * i + 1])
}

/// Read a pair of hexadecimal characters.
fn read_pair(a: u8, b: u8) -> (r: Option<u8>)
    ensures
        r == pair_value(a, b),
{
    match (hex(a), hex(b)) {
        (Some(x), Some(y)) => Some(16 * x + y),
        (None, Some(y)) => if a == 0x2b {
            Some(y)
        } else {
            None
        },
        _ => None,
    }
}

/// Read an object id of forty hexadecimal characters.
pub fn hex_to_20(oid: &str) -> (r: Result<Vec<u8>, ObjectError>)
    ensures
        r is Ok <==> oid_bytes(oid@) is Ok,
        r matches Ok(v) ==> oid_bytes(oid@) == Ok::<Seq<u8>, ObjectError>(v@) && v@.len() == 20,
        r matches Err(e) ==> oid_bytes(oid@) == Err::<Seq<u8>, ObjectError>(e),
{
    let b = oid.as_bytes();
    if b.len() != 40 {
        return Err(ObjectError::BadOid);
    }
    let mut out: Vec<u8> = Vec::new();
    let mut i: usize = 0;
    while i < 20
        invariant
            b@ == encode_utf8(oid@),
            b@.len() == 40,
            i <= 20,
            out@.len() == i,
            forall|j: int|
                0 <= j < i ==> (#[trigger] pair_at(b@, j)) == Some(out@[j]),
        decreases 20 - i,
    {
        match read_pair(b[2 * i], b[2 * i + 1]) {
            Some(v) => {
                out.push(v);
                assert(pair_at(b@, i as int) == Some(v));
            },
            None => {
                assert(pair_at(b@, i as int) is None);
                return Err(ObjectError::BadHex);
            },
        }
        i = i + 1;
    }
    assert(out@ =~= Seq::new(20, |i: int| pair_at(b@, i)->0));
    Ok(out)
}

/// True when row `i` of the table of object ids holds `id`.
pub open spec fn row_is(data: Seq<u8>, i: int, id: Seq<u8>) -> bool {
    let at = NAMES + 20 * i;
    at + 20 <= data.len() && data.subrange(at, at + 20) == id
}

/// The first row from `i` on and before `end` that holds `id`.
pub open spec fn find_row(data: Seq<u8>, i: int, end: int, id: Seq<u8>) -> Option<int>
    decreases end - i,
{
    if i >= end {
        None
    } else if row_is(data, i, id) {
        Some(i)
    } else {
        find_row(data, i + 1, end, id)
    }
}

/// The pack offset in row `i` of an index of `count` objects: a 32-bit offset,
/// or with the high bit set a row of the table of 64-bit offsets.
pub open spec fn row_offset(data: Seq<u8>, count: int, i: int) -> Result<nat, ObjectError> {
    let offsets = NAMES + 24 * count;
    let at = offsets + 4 * i;
    if at + 4 > data.len() {
        Err(ObjectError::ShortIdx)
    } else {
        let raw = bytes::be32(data, at) as int;
        if raw < 0x8000_0000 {
            Ok(raw as nat)
        } else {
            let large = offsets + 4 * count + 8 * (raw - 0x8000_0000);
            if large + 8 > data.len() {
                Err(ObjectError::ShortIdx)
            } else {
                Ok(bytes::be32(data, large) * 0x1_0000_0000 + bytes::be32(data, large + 4))
            }
        }
    }
}

/// Where the index `data` says that the object `oid` stands in its pack.
pub open spec fn idx_offset(data: Seq<u8>, oid: Seq<char>) -> Result<nat, ObjectError> {
    if data.len() < 8 || data.take(4) != seq![0xffu8, 0x74u8, 0x4fu8, 0x63u8] {
        Err(ObjectError::UnsupportedIdx)
    } else if bytes::be32(data, 4) != 2 {
        Err(ObjectError::UnsupportedIdxVersion)
    } else if data.len() < NAMES {
        Err(ObjectError::ShortIdx)
    } else {
        match oid_bytes(oid) {
            Err(e) => Err(e),
            Ok(id) => {
                let first = id[0] as int;
                let start = if first == 0 {
                    0
                } else {
                    bytes::be32(data, FANOUT + 4 * (first - 1)) as int
                };
                let end = bytes::be32(data, FANOUT + 4 * first) as int;
                match find_row(data, start, end, id) {
                    None => Err(ObjectError::NotInIdx),
                    Some(i) => row_offset(data, bytes::be32(data, FANOUT + 1020) as int, i),
                }
            },
        }
    }
}

/// A row that is found holds the id, and no row before it does.
pub proof fn lemma_find_row(data: Seq<u8>, i: int, end: int, id: Seq<u8>)
    ensures
        find_row(data, i, end, id) matches Some(k) ==> i <= k < end && row_is(data, k, id)
            && forall|j: int| i <= j < k ==> !row_is(data, j, id),
        find_row(data, i, end, id) is None ==> forall|j: int|
            i <= j < end ==> !row_is(data, j, id),
    decreases end - i,
{
    if i < end && !row_is(data, i, id) {
        lemma_find_row(data, i + 1, end, id);
    }
}

/// Read the pack offset in row `i`.
fn read_offset(data: &[u8], count: u32, i: u32) -> (r: Result<u64, ObjectError>)
    ensures
        r is Ok <==> row_offset(data@, count as int, i as int) is Ok,
        r matches Ok(v) ==> row_offset(data@, count as int, i as int) == Ok::<nat, ObjectError>(
            v as nat,
        ),
        r matches Err(e) ==> row_offset(data@, count as int, i as int) == Err::<nat, ObjectError>(
            e,
        ),
{
    let offsets: u64 = NAMES + 24 * (count as u64);
    let raw: u32 = be_u32(data, offsets + 4 * (i as u64))?;
    if raw < 0x8000_0000 {
        return Ok(raw as u64);
    }
    let large: u64 = offsets + 4 * (count as u64) + 8 * ((raw - 0x8000_0000) as u64);
    be_u64(data, large)
}

/// Look an object id up in an index file.
pub fn idx_lookup(data: &[u8], oid: &str) -> (r: Result<u64, ObjectError>)
    ensures
        r is Ok <==> idx_offset(data@, oid@) is Ok,
        r matches Ok(v) ==> idx_offset(data@, oid@) == Ok::<nat, ObjectError>(v as nat),
        r matches Err(e) ==> idx_offset(data@, oid@) == Err::<nat, ObjectError>(e),
{
    if data.len() < 8 {
        return Err(ObjectError::UnsupportedIdx);
    }
    if data[0] != 0xff || data[1] != 0x74 || data[2] != 0x4f || data[3] != 0x63 {
        assert(data@.take(4) != seq![0xffu8, 0x74u8, 0x4fu8, 0x63u8]) by {
            assert(data@.take(4)[0] == data@[0]);
            assert(data@.take(4)[1] == data@[1]);
            assert(data@.take(4)[2] == data@[2]);
            assert(data@.take(4)[3] == data@[3]);
        }
        return Err(ObjectError::UnsupportedIdx);
    }
    assert(data@.take(4) =~= seq![0xffu8, 0x74u8, 0x4fu8, 0x63u8]);
    let version: u32 = be_u32(data, 4)?;
    if version != 2 {
        return Err(ObjectError::UnsupportedIdxVersion);
    }
    let count: u32 = be_u32(data, FANOUT + 1020)?;
    let id: Vec<u8> = hex_to_20(oid)?;
    let first: u64 = id[0] as u64;
    let start: u32 = if first == 0 {
        0
    } else {
        be_u32(data, FANOUT + 4 * (first - 1))?
    };
    let end: u32 = be_u32(data, FANOUT + 4 * first)?;
    let mut i: u32 = start;
    while i < end
        invariant
            start <= i,
            id@.len() == 20,
            find_row(data@, start as int, end as int, id@) == find_row(
                data@,
                i as int,
                end as int,
                id@,
            ),
            idx_offset(data@, oid@) == (match find_row(data@, start as int, end as int, id@) {
                None => Err::<nat, ObjectError>(ObjectError::NotInIdx),
                Some(k) => row_offset(data@, count as int, k),
            }),
        decreases end - i,
    {
        let at: u64 = NAMES + 20 * (i as u64);
        let len: u64 = data.len() as u64;
        if len >= 20 && at <= len - 20 {
            let row = slice_subrange(data, at as usize, (at + 20) as usize);
            if same_bytes(row, id.as_slice()) {
                return read_offset(data, count, i);
            }
        }
        i = i + 1;
    }
    Err(ObjectError::NotInIdx)
}

}
