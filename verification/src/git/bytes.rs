//! Fixed-width and variable-width integers in Git's binary formats.

use vstd::prelude::*;
use crate::text;

verus! {

/// Why an object could not be read.
#[derive(Clone, Copy, Debug, PartialEq, Eq, Structural)]
pub enum ObjectError {
    /// The object id does not have forty bytes.
    BadOid,
    /// The object id has a pair of characters that is no hexadecimal byte.
    BadHex,
    /// No loose file and no pack holds the object.
    NotFound,
    /// A pack is listed by its index but cannot be read.
    Unreadable,
    /// The zlib stream is corrupt or incomplete.
    Inflate,
    /// A loose object has no NUL byte after its header.
    MissingHeader,
    /// A loose object's header is not UTF-8.
    BadHeaderText,
    /// A loose object's header names an unknown kind.
    UnsupportedKind,
    /// The index file does not start with the index signature.
    UnsupportedIdx,
    /// The index file has a version other than two.
    UnsupportedIdxVersion,
    /// The index file ends inside a table.
    ShortIdx,
    /// The index file does not list the object id.
    NotInIdx,
    /// The pack file does not start with the pack signature.
    BadPack,
    /// A chain of offset deltas is too long.
    DepthExceeded,
    /// A chain of reference deltas never reaches an object that is stored whole.
    CyclicDelta,
    /// The pack ends before an object's header.
    ShortPackHeader,
    /// The pack ends inside an object's size.
    ShortPackSize,
    /// The pack ends inside the distance of an offset delta.
    ShortOfsDelta,
    /// The distance of an offset delta reaches before the start of the pack.
    BadOfsDelta,
    /// The pack ends inside the base id of a reference delta.
    BadRefDelta,
    /// The pack object has an unknown type.
    UnsupportedType,
    /// A delta ends inside a number or inside an instruction's arguments.
    ShortRead,
    /// A delta copies from outside its base.
    CopyOutOfRange,
    /// A delta inserts more bytes than it holds.
    InsertOutOfRange,
    /// A delta has an instruction with code zero.
    InvalidOpcode,
    /// A delta's result does not have the size that the delta announces.
    SizeMismatch,
    /// The object is not a tree.
    NotATree,
    /// A tree entry has no space after its mode.
    BadTreeMode,
    /// A tree entry's mode is not UTF-8.
    BadTreeModeText,
    /// A tree entry has no NUL byte after its name.
    BadTreeName,
    /// A tree ends inside an object id.
    BadTreeOid,
}

/// Two to the power of 64: variable-width numbers are kept modulo this.
pub const WORD: u128 = 0x1_0000_0000_0000_0000;

/// True when another byte of the same number follows `b`.
pub open spec fn continues(b: u8) -> bool {
    b >= 128
}

/// How many bytes the number at `pos` has, its last byte included, or `None`
/// when the data end before its last byte.
pub open spec fn number_len(data: Seq<u8>, pos: int) -> Option<nat>
    decreases data.len() - pos,
{
    if pos < 0 || pos >= data.len() {
        None
    } else if !continues(data[pos]) {
        Some(1)
    } else {
        match number_len(data, pos + 1) {
            Some(n) => Some((n + 1) as nat),
            None => None,
        }
    }
}

/// The value of the `n` bytes at `pos`, seven bits each, low bits first.
pub open spec fn low_first(data: Seq<u8>, pos: int, n: nat) -> nat
    decreases n,
{
    if n == 0 {
        0
    } else {
        (data[pos] % 128) as nat + 128 * low_first(data, pos + 1, (n - 1) as nat)
    }
}

/// The value of the `n` bytes at `pos`, seven bits each, high bits first, where
/// every byte but the last adds one to what is shifted.
pub open spec fn high_first(data: Seq<u8>, pos: int, n: nat) -> nat
    decreases n,
{
    if n == 0 {
        0
    } else if n == 1 {
        (data[pos] % 128) as nat
    } else {
        (high_first(data, pos, (n - 1) as nat) + 1) * 128 + (data[pos + n - 1] % 128) as nat
    }
}

/// A number's bytes all lie in the data, and exactly the last does not continue.
pub proof fn lemma_number_len(data: Seq<u8>, pos: int)
    requires
        0 <= pos,
    ensures
        number_len(data, pos) matches Some(n) ==> {
            &&& 1 <= n
            &&& pos + n <= data.len()
            &&& !continues(data[pos + n - 1])
            &&& forall|i: int| pos <= i < pos + n - 1 ==> continues(#[trigger] data[i])
        },
        number_len(data, pos) is None ==> forall|i: int|
            pos <= i < data.len() ==> continues(#[trigger] data[i]),
    decreases data.len() - pos,
{
    if pos < data.len() && continues(data[pos]) {
        lemma_number_len(data, pos + 1);
    }
}

/// Positions reached by bytes that continue belong to one number.
proof fn lemma_number_step(data: Seq<u8>, pos: int, k: nat)
    requires
        0 <= pos,
        pos + k <= data.len(),
        forall|i: int| pos <= i < pos + k ==> continues(#[trigger] data[i]),
    ensures
        number_len(data, pos) == (match number_len(data, pos + k) {
            Some(n) => Some((n + k) as nat),
            None => None::<nat>,
        }),
    decreases k,
{
    if k > 0 {
        lemma_number_step(data, pos + 1, (k - 1) as nat);
    }
}

/// The length of the number at `pos`.
pub fn scan_number(data: &[u8], pos: usize) -> (r: Option<usize>)
    ensures
        r is Some <==> number_len(data@, pos as int) is Some,
        r matches Some(n) ==> number_len(data@, pos as int) == Some(n as nat),
{
    let mut i: usize = pos;
    while i < data.len()
        invariant
            pos <= i,
            i <= data.len() || i == pos,
            forall|j: int| pos <= j < i ==> continues(#[trigger] data@[j]),
        decreases data.len() - i,
    {
        if data[i] < 128 {
            proof {
                lemma_number_step(data@, pos as int, (i - pos) as nat);
            }
            return Some(i - pos + 1);
        }
        i = i + 1;
    }
    proof {
        if pos <= data.len() {
            lemma_number_step(data@, pos as int, (i - pos) as nat);
        }
    }
    None
}

/// The value, modulo 2^64, of the `n` bytes at `pos`, low bits first.
pub fn low_first_value(data: &[u8], pos: usize, n: usize) -> (r: u64)
    requires
        pos + n <= data@.len(),
    ensures
        r as nat == low_first(data@, pos as int, n as nat) % (WORD as nat),
{
    let mut left: usize = n;
    let mut out: u64 = 0;
    while left > 0
        invariant
            left <= n,
            pos + n <= data.len(),
            out as nat == low_first(data@, pos + left, (n - left) as nat) % (WORD as nat),
        decreases left,
    {
        left = left - 1;
        let low: u64 = (data[pos + left] % 128) as u64;
        let wide: u128 = low as u128 + 128 * (out as u128);
        proof {
            let s = low_first(data@, pos + left + 1, (n - left - 1) as nat);
            lemma_scale_mod(low as nat, 128, s);
        }
        out = (wide % WORD) as u64;
    }
    out
}

/// Scaling and adding commute with reduction modulo 2^64.
pub proof fn lemma_scale_mod(low: nat, k: nat, s: nat)
    ensures
        (low + k * (s % (WORD as nat))) % (WORD as nat) == (low + k * s) % (WORD as nat),
{
    let m = WORD as int;
    let q = s as int / m;
    let r = s as int % m;
    assert(s == m * q + r) by {
        vstd::arithmetic::div_mod::lemma_fundamental_div_mod(s as int, m);
    }
    assert(low + k * s == m * (k * q) + (low + k * r)) by (nonlinear_arith)
        requires
            s == m * q + r,
    ;
    vstd::arithmetic::div_mod::lemma_mod_multiples_vanish(k * q, (low + k * r) as int, m);
}

/// The value, modulo 2^64, of the `n` bytes at `pos`, high bits first.
pub fn high_first_value(data: &[u8], pos: usize, n: usize) -> (r: u64)
    requires
        pos + n <= data@.len(),
        1 <= n,
    ensures
        r as nat == high_first(data@, pos as int, n as nat) % (WORD as nat),
{
    let mut done: usize = 1;
    let mut out: u64 = (data[pos] % 128) as u64;
    while done < n
        invariant
            1 <= done <= n,
            pos + n <= data.len(),
            out as nat == high_first(data@, pos as int, done as nat) % (WORD as nat),
        decreases n - done,
    {
        let low: u64 = (data[pos + done] % 128) as u64;
        let wide: u128 = (out as u128 + 1) * 128 + low as u128;
        proof {
            let s = high_first(data@, pos as int, done as nat);
            lemma_scale_mod((128 + low) as nat, 128, s);
        }
        out = (wide % WORD) as u64;
        done = done + 1;
    }
    out
}

/// The big-endian value of the four bytes at `pos`.
pub open spec fn be32(data: Seq<u8>, pos: int) -> nat {
    ((data[pos] as nat * 256 + data[pos + 1] as nat) * 256 + data[pos + 2] as nat) * 256
        + data[pos + 3] as nat
}

/// Read a big-endian 32-bit integer.
pub fn be_u32(data: &[u8], pos: u64) -> (r: Result<u32, ObjectError>)
    ensures
        pos + 4 <= data@.len() ==> (r matches Ok(v) && v as nat == be32(data@, pos as int)),
        pos + 4 > data@.len() ==> r == Err::<u32, ObjectError>(ObjectError::ShortIdx),
{
    let len: u64 = data.len() as u64;
    if len < 4 || pos > len - 4 {
        return Err(ObjectError::ShortIdx);
    }
    let p: usize = pos as usize;
    Ok(((data[p] as u32 * 256 + data[p + 1] as u32) * 256 + data[p + 2] as u32) * 256
        + data[p + 3] as u32)
}

/// Read a big-endian 64-bit integer.
pub fn be_u64(data: &[u8], pos: u64) -> (r: Result<u64, ObjectError>)
    ensures
        pos + 8 <= data@.len() ==> (r matches Ok(v) && v as nat == be32(data@, pos as int)
            * 0x1_0000_0000 + be32(data@, pos + 4)),
        pos + 8 > data@.len() ==> r == Err::<u64, ObjectError>(ObjectError::ShortIdx),
{
    let len: u64 = data.len() as u64;
    if len < 8 || pos > len - 8 {
        return Err(ObjectError::ShortIdx);
    }
    let high: u32 = be_u32(data, pos)?;
    let low: u32 = be_u32(data, pos + 4)?;
    Ok(high as u64 * 0x1_0000_0000 + low as u64)
}

/// The first place at or after `start` where `needle` stands.
pub open spec fn byte_index(data: Seq<u8>, start: int, needle: u8) -> Option<int> {
    if 0 <= start <= data.len() && start + text::until(data.skip(start), needle) < data.len() {
        Some(start + text::until(data.skip(start), needle))
    } else {
        None
    }
}

/// The first place at or after `start` where `needle` stands.
pub fn find_byte(data: &[u8], start: usize, needle: u8) -> (r: Option<usize>)
    ensures
        r is Some <==> byte_index(data@, start as int, needle) is Some,
        r matches Some(i) ==> byte_index(data@, start as int, needle) == Some(i as int) && start
            <= i < data@.len(),
{
    if start > data.len() {
        return None;
    }
    let ghost rest = data@.skip(start as int);
    let mut i: usize = start;
    while i < data.len()
        invariant
            start <= i <= data.len(),
            rest == data@.skip(start as int),
            forall|j: int| 0 <= j < i - start ==> rest[j] != needle,
        decreases data.len() - i,
    {
        if data[i] == needle {
            proof {
                text::lemma_until_is(rest, needle, i - start);
            }
            return Some(i);
        }
        i = i + 1;
    }
    proof {
        text::lemma_until_is(rest, needle, rest.len() as int);
    }
    None
}

/// Append `src` to `out`.
pub fn append_bytes(out: &mut Vec<u8>, src: &[u8])
    ensures
        final(out)@ == old(out)@ + src@,
{
    out.extend_from_slice(src);
    assert(out@ =~= old(out)@ + src@);
}

/// True when `a` and `b` hold the same bytes.
pub fn same_bytes(a: &[u8], b: &[u8]) -> (r: bool)
    ensures
        r == (a@ == b@),
{
    if a.len() != b.len() {
        return false;
    }
    let mut i: usize = 0;
    while i < a.len()
        invariant
            a@.len() == b@.len(),
            i <= a.len(),
            forall|j: int| 0 <= j < i ==> a@[j] == b@[j],
        decreases a.len() - i,
    {
        if a[i] != b[i] {
            return false;
        }
        i = i + 1;
    }
    assert(a@ =~= b@);
    true
}

}
