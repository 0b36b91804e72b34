//! Objects in pack files.

use vstd::prelude::*;
use crate::git::bytes::{self, high_first_value, low_first_value, scan_number, ObjectError, WORD};

verus! {

/// The type, the size and the end of the object header at `offset`.
pub open spec fn pack_header(data: Seq<u8>, offset: int) -> Result<(u8, nat, int), ObjectError> {
    if offset < 0 || offset >= data.len() {
        Err(ObjectError::ShortPackHeader)
    } else {
        let c = data[offset];
        let kind = ((c / 16) % 8) as u8;
        let low = (c % 16) as nat;
        if !bytes::continues(c) {
            Ok((kind, low, offset + 1))
        } else {
            match bytes::number_len(data, offset + 1) {
                None => Err(ObjectError::ShortPackSize),
                Some(n) => Ok(
                    (
                        kind,
                        (low + 16 * bytes::low_first(data, offset + 1, n)) % (WORD as nat),
                        offset + 1 + n,
                    ),
                ),
            }
        }
    }
}

/// The offset of the base of the offset delta at `offset`, whose distance
/// stands at `pos`, and where the distance ends.
pub open spec fn ofs_base(data: Seq<u8>, offset: int, pos: int) -> Result<
    (int, int),
    ObjectError,
> {
    match bytes::number_len(data, pos) {
        None => Err(ObjectError::ShortOfsDelta),
        Some(n) => {
            let distance = bytes::high_first(data, pos, n) % (WORD as nat);
            if distance > offset {
                Err(ObjectError::BadOfsDelta)
            } else {
                Ok((offset - distance, pos + n))
            }
        },
    }
}

/// Read an object header: type, size modulo 2^64, and where the header ends.
pub fn parse_pack_header(data: &[u8], offset: usize) -> (r: Result<
    (u8, u64, usize),
    ObjectError,
>)
    ensures
        r is Ok <==> pack_header(data@, offset as int) is Ok,
        r matches Ok(h) ==> pack_header(data@, offset as int) == Ok::<
            (u8, nat, int),
            ObjectError,
        >((h.0, h.1 as nat, h.2 as int)) && offset < h.2 <= data@.len(),
        r matches Err(e) ==> pack_header(data@, offset as int) == Err::<
            (u8, nat, int),
            ObjectError,
        >(e),
{
    if offset >= data.len() {
        return Err(ObjectError::ShortPackHeader);
    }
    let c: u8 = data[offset];
    let kind: u8 = (c / 16) % 8;
    let low: u8 = c % 16;
    if c < 128 {
        return Ok((kind, low as u64, offset + 1));
    }
    let n: usize = match scan_number(data, offset + 1) {
        Some(n) => n,
        None => return Err(ObjectError::ShortPackSize),
    };
    proof {
        bytes::lemma_number_len(data@, offset + 1);
    }
    let rest: u64 = low_first_value(data, offset + 1, n);
    let wide: u128 = low as u128 + 16 * (rest as u128);
    proof {
        bytes::lemma_scale_mod(low as nat, 16, bytes::low_first(data@, offset + 1, n as nat));
    }
    assert(offset + 1 + n <= data.len());
    Ok((kind, (wide % WORD) as u64, offset + 1 + n))
}

/// Read the distance of an offset delta: where its base is, and where the
/// distance ends.
pub fn parse_ofs_delta(data: &[u8], object_offset: usize, pos: usize) -> (r: Result<
    (usize, usize),
    ObjectError,
>)
    ensures
        r is Ok <==> ofs_base(data@, object_offset as int, pos as int) is Ok,
        r matches Ok(b) ==> ofs_base(data@, object_offset as int, pos as int) == Ok::<
            (int, int),
            ObjectError,
        >((b.0 as int, b.1 as int)) && b.1 <= data@.len(),
        r matches Err(e) ==> ofs_base(data@, object_offset as int, pos as int) == Err::<
            (int, int),
            ObjectError,
        >(e),
{
    let n: usize = match scan_number(data, pos) {
        Some(n) => n,
        None => return Err(ObjectError::ShortOfsDelta),
    };
    proof {
        bytes::lemma_number_len(data@, pos as int);
    }
    let distance: u64 = high_first_value(data, pos, n);
    if distance > object_offset as u64 {
        return Err(ObjectError::BadOfsDelta);
    }
    assert(pos + n <= data.len());
    Ok((object_offset - distance as usize, pos + n))
}

}
