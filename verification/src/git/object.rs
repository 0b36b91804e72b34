//! Reading objects, loose or packed.

use std::io::Read;

use flate2::read::ZlibDecoder;
use vstd::prelude::*;
use vstd::slice::{slice_subrange, slice_to_vec};
use vstd::utf8::*;
use crate::git::bytes::{self, find_byte, ObjectError};
use crate::git::delta::{self, apply_delta};
use crate::git::idx::{self, idx_lookup};
use crate::git::pack::{self, parse_ofs_delta, parse_pack_header};
use crate::numbers::{self, bytes_to_hex};
use crate::repo::{self, stored_file, FileView, FilesView, RepoFiles, StoredFile};
use crate::text::{self, decode_strict, ends_with, same, split_pair};

verus! {

/// The kind of an object.
#[derive(Clone, Copy, Debug, PartialEq, Eq, Structural)]
pub enum Kind {
    /// A commit.
    Commit,
    /// A directory.
    Tree,
    /// A file.
    Blob,
    /// An annotated tag.
    Tag,
}

/// An object: its kind and its contents.
#[derive(Clone, Debug)]
pub struct Object {
    /// The kind.
    pub kind: Kind,
    /// The contents.
    pub data: Vec<u8>,
}

/// What an object holds.
pub struct ObjectView {
    /// The kind.
    pub kind: Kind,
    /// The contents.
    pub data: Seq<u8>,
}

impl View for Object {
    type V = ObjectView;

    open spec fn view(&self) -> ObjectView {
        ObjectView { kind: self.kind, data: self.data@ }
    }
}

/// The outcome of reading an object, with the object by what it holds.
pub open spec fn outcome(r: Result<Object, ObjectError>) -> Result<ObjectView, ObjectError> {
    match r {
        Ok(o) => Ok(o@),
        Err(e) => Err(e),
    }
}

/// What the zlib stream at the start of `data` inflates to, or `None` when it
/// is corrupt or incomplete.
pub uninterp spec fn zlib_inflate(data: Seq<u8>) -> Option<Seq<u8>>;

/// `flate2::read::ZlibDecoder`, read to its end: the outcome is a function of
/// the bytes alone. What a given stream inflates to is left unsaid.
#[verifier::external_body]
fn zlib_decode(data: &[u8]) -> (r: Option<Vec<u8>>)
    ensures
        (match r {
            Some(v) => Some(v@),
            None => None,
        }) == zlib_inflate(data@),
{
    let mut decoder = ZlibDecoder::new(data);
    let mut out = Vec::new();
    match decoder.read_to_end(&mut out) {
        Ok(_) => Some(out),
        Err(_) => None,
    }
}

/// Inflate the zlib stream at the start of `data`.
pub fn inflate_from(data: &[u8]) -> (r: Result<Vec<u8>, ObjectError>)
    ensures
        r matches Ok(v) ==> zlib_inflate(data@) == Some(v@),
        r matches Err(e) ==> zlib_inflate(data@) is None && e == ObjectError::Inflate,
{
    match zlib_decode(data) {
        Some(v) => Ok(v),
        None => Err(ObjectError::Inflate),
    }
}

/// The kind that a loose object's header names.
pub open spec fn kind_named(name: Seq<char>) -> Option<Kind> {
    if name == "commit"@ {
        Some(Kind::Commit)
    } else if name == "tree"@ {
        Some(Kind::Tree)
    } else if name == "blob"@ {
        Some(Kind::Blob)
    } else if name == "tag"@ {
        Some(Kind::Tag)
    } else {
        None
    }
}

/// The object that an inflated loose file holds: a header, which starts with
/// the kind and ends at the first NUL byte, and then the contents.
pub open spec fn payload(data: Seq<u8>) -> Result<ObjectView, ObjectError> {
    match bytes::byte_index(data, 0, 0) {
        None => Err(ObjectError::MissingHeader),
        Some(nul) => {
            let header = data.take(nul);
            if !valid_utf8(header) {
                Err(ObjectError::BadHeaderText)
            } else {
                let words = decode_utf8(header);
                match kind_named(words.take(text::until(words, ' ') as int)) {
                    None => Err(ObjectError::UnsupportedKind),
                    Some(kind) => Ok(ObjectView { kind, data: data.skip(nul + 1) }),
                }
            }
        },
    }
}

/// Read the kind that a loose object's header names.
fn parse_kind(name: &str) -> (r: Option<Kind>)
    ensures
        r == kind_named(name@),
{
    if same(name, "commit") {
        Some(Kind::Commit)
    } else if same(name, "tree") {
        Some(Kind::Tree)
    } else if same(name, "blob") {
        Some(Kind::Blob)
    } else if same(name, "tag") {
        Some(Kind::Tag)
    } else {
        None
    }
}

/// Read the inflated contents of a loose object's file.
pub fn parse_object_payload(data: &[u8]) -> (r: Result<Object, ObjectError>)
    ensures
        outcome(r) == payload(data@),
{
    let nul: usize = match find_byte(data, 0, 0) {
        Some(i) => i,
        None => return Err(ObjectError::MissingHeader),
    };
    assert(data@.subrange(0, nul as int) =~= data@.take(nul as int));
    let header: String = match decode_strict(slice_subrange(data, 0, nul)) {
        Some(s) => s,
        None => return Err(ObjectError::BadHeaderText),
    };
    proof {
        text::lemma_until(header@, ' ');
    }
    let first: String = match split_pair(header.as_str(), ' ') {
        Some((first, _rest)) => first,
        None => {
            assert(header@.take(header@.len() as int) =~= header@);
            header
        },
    };
    let kind: Kind = match parse_kind(first.as_str()) {
        Some(kind) => kind,
        None => return Err(ObjectError::UnsupportedKind),
    };
    assert(nul < data.len());
    assert(data@.subrange(nul + 1, data@.len() as int) =~= data@.skip(nul + 1));
    Ok(Object { kind, data: slice_to_vec(slice_subrange(data, nul + 1, data.len())) })
}

/// The loose object `oid`.
pub open spec fn loose_object(files: FilesView, oid: Seq<char>) -> Result<
    ObjectView,
    ObjectError,
> {
    if encode_utf8(oid).len() != 40 {
        Err(ObjectError::BadOid)
    } else {
        match repo::stored(files.loose, oid) {
            None => Err(ObjectError::NotFound),
            Some(z) => match zlib_inflate(z) {
                None => Err(ObjectError::Inflate),
                Some(data) => payload(data),
            },
        }
    }
}

/// Read a loose object.
pub fn read_loose_object(files: &RepoFiles, oid: &str) -> (r: Result<Object, ObjectError>)
    ensures
        outcome(r) == loose_object(files@, oid@),
{
    if oid.as_bytes().len() != 40 {
        return Err(ObjectError::BadOid);
    }
    let compressed = match stored_file(&files.loose, oid) {
        Some(d) => d,
        None => return Err(ObjectError::NotFound),
    };
    let data: Vec<u8> = inflate_from(compressed.as_slice())?;
    parse_object_payload(data.as_slice())
}

/// True when a file of that name is a pack index.
pub open spec fn is_idx_name(name: Seq<char>) -> bool {
    name.len() > 4 && text::has_suffix(name, ".idx"@)
}

/// The name of the pack that belongs to the index of that name.
pub open spec fn pack_name(name: Seq<char>) -> Seq<char> {
    name.take(name.len() - 4) + ".pack"@
}

/// The first index from place `i` on that lists the object: the name of its
/// pack and the offset there.
pub open spec fn locate(packs: Seq<FileView>, i: int, oid: Seq<char>) -> Option<(Seq<char>, nat)>
    decreases packs.len() - i,
{
    if i < 0 || i >= packs.len() {
        None
    } else {
        match index_entry(packs[i], oid) {
            Some(offset) => Some((pack_name(packs[i].name), offset)),
            None => locate(packs, i + 1, oid),
        }
    }
}

/// The offset that the file gives for the object, when the file is a readable
/// index that lists it.
pub open spec fn index_entry(file: FileView, oid: Seq<char>) -> Option<nat> {
    if !is_idx_name(file.name) {
        None
    } else {
        match file.data {
            None => None,
            Some(data) => match idx::idx_offset(data, oid) {
                Ok(offset) => Some(offset),
                Err(_) => None,
            },
        }
    }
}

/// True when `data` starts like a pack.
pub open spec fn is_pack(data: Seq<u8>) -> bool {
    data.len() >= 12 && data.take(4) == seq![0x50u8, 0x41u8, 0x43u8, 0x4bu8]
}

/// The kind that a pack gives an object that is stored whole.
pub open spec fn kind_numbered(n: u8) -> Kind {
    if n == 1 {
        Kind::Commit
    } else if n == 2 {
        Kind::Tree
    } else if n == 3 {
        Kind::Blob
    } else {
        Kind::Tag
    }
}

/// The object that a compressed delta describes over `base`.
pub open spec fn delta_over(base: ObjectView, compressed: Seq<u8>) -> Result<
    ObjectView,
    ObjectError,
> {
    match zlib_inflate(compressed) {
        None => Err(ObjectError::Inflate),
        Some(d) => match delta::delta_result(base.data, d) {
            Err(e) => Err(e),
            Ok(out) => Ok(ObjectView { kind: base.kind, data: out }),
        },
    }
}

/// The object `oid`, loose or packed, found over at most `budget` reference
/// deltas.
pub open spec fn object_within(files: FilesView, oid: Seq<char>, budget: nat) -> Result<
    ObjectView,
    ObjectError,
>
    decreases budget, 40nat,
{
    match loose_object(files, oid) {
        Ok(o) => Ok(o),
        Err(_) => match locate(files.packs, 0, oid) {
            None => Err(ObjectError::NotFound),
            Some((name, offset)) => match repo::stored(files.packs, name) {
                None => Err(ObjectError::Unreadable),
                Some(data) => if !is_pack(data) {
                    Err(ObjectError::BadPack)
                } else {
                    pack_object(files, data, offset as int, 0, budget)
                },
            },
        },
    }
}

/// The object at `offset` in the pack `data`, after `depth` offset deltas.
pub open spec fn pack_object(
    files: FilesView,
    data: Seq<u8>,
    offset: int,
    depth: nat,
    budget: nat,
) -> Result<ObjectView, ObjectError>
    decreases budget, (39 - depth) as nat,
{
    if depth > 32 {
        Err(ObjectError::DepthExceeded)
    } else {
        match pack::pack_header(data, offset) {
            Err(e) => Err(e),
            Ok((kind, _size, pos)) => if 1 <= kind <= 4 {
                match zlib_inflate(data.skip(pos)) {
                    None => Err(ObjectError::Inflate),
                    Some(d) => Ok(ObjectView { kind: kind_numbered(kind), data: d }),
                }
            } else if kind == 6 {
                match pack::ofs_base(data, offset, pos) {
                    Err(e) => Err(e),
                    Ok((base_offset, next)) => match pack_object(
                        files,
                        data,
                        base_offset,
                        depth + 1,
                        budget,
                    ) {
                        Err(e) => Err(e),
                        Ok(base) => delta_over(base, data.skip(next)),
                    },
                }
            } else if kind == 7 {
                if pos + 20 > data.len() {
                    Err(ObjectError::BadRefDelta)
                } else if budget == 0 {
                    Err(ObjectError::CyclicDelta)
                } else {
                    match object_within(
                        files,
                        numbers::to_hex(data.subrange(pos, pos + 20)),
                        (budget - 1) as nat,
                    ) {
                        Err(e) => Err(e),
                        Ok(base) => delta_over(base, data.skip(pos + 20)),
                    }
                }
            } else {
                Err(ObjectError::UnsupportedType)
            },
        }
    }
}

/// The number of bytes in the files, an upper bound for how many different
/// reference deltas they can hold.
pub open spec fn total_bytes(files: Seq<FileView>) -> nat
    decreases files.len(),
{
    if files.len() == 0 {
        0
    } else {
        total_bytes(files.drop_last()) + (match files.last().data {
            Some(d) => d.len(),
            None => 0,
        })
    }
}

/// The object `oid`.
pub open spec fn object(files: FilesView, oid: Seq<char>) -> Result<ObjectView, ObjectError> {
    object_within(files, oid, total_bytes(files.packs))
}

/// The offset that a file gives for an object.
fn read_index_entry(file: &StoredFile, oid: &str) -> (r: Option<u64>)
    ensures
        (match r {
            Some(v) => Some(v as nat),
            None => None,
        }) == index_entry(file@, oid@),
{
    let name = text::chars_of(file.name.as_str());
    if name.len() <= 4 || !ends_with(file.name.as_str(), ".idx") {
        return None;
    }
    match &file.data {
        None => None,
        Some(data) => match idx_lookup(data.as_slice(), oid) {
            Ok(offset) => Some(offset),
            Err(_) => None,
        },
    }
}

/// The pack's name for the index's name.
fn pack_file_name(name: &str) -> (r: String)
    requires
        name@.len() > 4,
    ensures
        r@ == pack_name(name@),
{
    let v = text::chars_of(name);
    let mut out = text::string_of(slice_subrange(v.as_slice(), 0, v.len() - 4));
    assert(name@.subrange(0, name@.len() - 4) =~= name@.take(name@.len() - 4));
    out.append(".pack");
    out
}

/// Inflate a delta and apply it to its base.
fn resolve_delta(base: Object, compressed: &[u8]) -> (r: Result<Object, ObjectError>)
    ensures
        outcome(r) == delta_over(base@, compressed@),
{
    let d: Vec<u8> = inflate_from(compressed)?;
    let data: Vec<u8> = apply_delta(base.data.as_slice(), d.as_slice())?;
    Ok(Object { kind: base.kind, data })
}

/// The number of bytes in the files.
fn count_bytes(files: &Vec<StoredFile>) -> (r: u128)
    ensures
        r as nat == total_bytes(repo::file_views(files@)),
{
    let ghost all = repo::file_views(files@);
    let mut total: u128 = 0;
    let mut i: usize = 0;
    while i < files.len()
        invariant
            all == repo::file_views(files@),
            i <= files.len(),
            total as nat == total_bytes(all.take(i as int)),
            total <= i * 0x1_0000_0000_0000_0000,
        decreases files.len() - i,
    {
        proof {
            assert(all.take(i + 1).drop_last() =~= all.take(i as int));
            assert(all.take(i + 1).last() == files@[i as int]@);
        }
        let n: usize = match &files[i].data {
            Some(d) => d.len(),
            None => 0,
        };
        total = total + n as u128;
        i = i + 1;
    }
    assert(all.take(i as int) =~= all);
    total
}

/// Read an object, loose or packed, over at most `budget` reference deltas.
pub fn read_object_within(files: &RepoFiles, oid: &str, budget: u128) -> (r: Result<
    Object,
    ObjectError,
>)
    ensures
        outcome(r) == object_within(files@, oid@, budget as nat),
    decreases budget, 41nat,
{
    match read_loose_object(files, oid) {
        Ok(o) => return Ok(o),
        Err(_) => {},
    }
    let mut i: usize = 0;
    while i < files.packs.len()
        invariant
            i <= files.packs.len(),
            locate(files@.packs, 0, oid@) == locate(files@.packs, i as int, oid@),
            loose_object(files@, oid@) is Err,
        decreases files.packs.len() - i,
    {
        assert(files@.packs[i as int] == files.packs@[i as int]@);
        match read_index_entry(&files.packs[i], oid) {
            Some(offset) => {
                let name = pack_file_name(files.packs[i].name.as_str());
                return match stored_file(&files.packs, name.as_str()) {
                    None => Err(ObjectError::Unreadable),
                    Some(data) => read_pack_at(files, data.as_slice(), offset, budget),
                };
            },
            None => {},
        }
        i = i + 1;
    }
    Err(ObjectError::NotFound)
}

/// Read the object at `offset` in a pack file.
fn read_pack_at(files: &RepoFiles, data: &[u8], offset: u64, budget: u128) -> (r: Result<
    Object,
    ObjectError,
>)
    ensures
        outcome(r) == (if !is_pack(data@) {
            Err(ObjectError::BadPack)
        } else {
            pack_object(files@, data@, offset as int, 0, budget as nat)
        }),
    decreases budget, 40nat,
{
    if data.len() < 12 {
        return Err(ObjectError::BadPack);
    }
    if data[0] != 0x50 || data[1] != 0x41 || data[2] != 0x43 || data[3] != 0x4b {
        assert(data@.take(4) != seq![0x50u8, 0x41u8, 0x43u8, 0x4bu8]) by {
            assert(data@.take(4)[0] == data@[0]);
            assert(data@.take(4)[1] == data@[1]);
            assert(data@.take(4)[2] == data@[2]);
            assert(data@.take(4)[3] == data@[3]);
        }
        return Err(ObjectError::BadPack);
    }
    assert(data@.take(4) =~= seq![0x50u8, 0x41u8, 0x43u8, 0x4bu8]);
    if offset >= data.len() as u64 {
        return Err(ObjectError::ShortPackHeader);
    }
    read_pack_object(files, data, offset as usize, 0, budget)
}

/// Read the object at `offset` in a pack, after `depth` offset deltas.
pub fn read_pack_object(
    files: &RepoFiles,
    data: &[u8],
    offset: usize,
    depth: usize,
    budget: u128,
) -> (r: Result<Object, ObjectError>)
    ensures
        outcome(r) == pack_object(files@, data@, offset as int, depth as nat, budget as nat),
    decreases budget, (if depth > 32 { 0nat } else { (39 - depth) as nat }),
{
    if depth > 32 {
        return Err(ObjectError::DepthExceeded);
    }
    let (kind, _size, pos) = parse_pack_header(data, offset)?;
    assert(data@.subrange(pos as int, data@.len() as int) =~= data@.skip(pos as int));
    if 1 <= kind && kind <= 4 {
        let inflated: Vec<u8> = inflate_from(slice_subrange(data, pos, data.len()))?;
        let kind: Kind = if kind == 1 {
            Kind::Commit
        } else if kind == 2 {
            Kind::Tree
        } else if kind == 3 {
            Kind::Blob
        } else {
            Kind::Tag
        };
        Ok(Object { kind, data: inflated })
    } else if kind == 6 {
        let (base_offset, next) = parse_ofs_delta(data, offset, pos)?;
        let base: Object = read_pack_object(files, data, base_offset, depth + 1, budget)?;
        assert(data@.subrange(next as int, data@.len() as int) =~= data@.skip(next as int));
        resolve_delta(base, slice_subrange(data, next, data.len()))
    } else if kind == 7 {
        if data.len() - pos < 20 {
            return Err(ObjectError::BadRefDelta);
        }
        if budget == 0 {
            return Err(ObjectError::CyclicDelta);
        }
        let base_oid = bytes_to_hex(slice_subrange(data, pos, pos + 20));
        let base: Object = read_object_within(files, base_oid.as_str(), budget - 1)?;
        assert(data@.subrange(pos + 20, data@.len() as int) =~= data@.skip(pos + 20));
        resolve_delta(base, slice_subrange(data, pos + 20, data.len()))
    } else {
        Err(ObjectError::UnsupportedType)
    }
}

/// Read an object, loose or packed.
pub fn read_object(files: &RepoFiles, oid: &str) -> (r: Result<Object, ObjectError>)
    ensures
        outcome(r) == object(files@, oid@),
{
    let budget: u128 = count_bytes(&files.packs);
    read_object_within(files, oid, budget)
}

}
