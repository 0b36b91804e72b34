//! Tree objects.

use vstd::prelude::*;
use vstd::slice::slice_subrange;
use vstd::utf8::*;
use crate::git::bytes::{self, find_byte, ObjectError};
use crate::numbers::{self, bytes_to_hex};
use crate::text::{self, decode_lossy, decode_strict, same};

verus! {

/// A tree entry.
#[derive(Clone, Debug)]
pub struct TreeEntry {
    /// Git mode string.
    pub mode: String,
    /// Entry kind (`tree`, `blob`, `commit`).
    pub kind: String,
    /// Object id.
    pub oid: String,
    /// File name.
    pub name: String,
}

/// What a tree entry holds.
pub struct EntryView {
    /// Git mode string.
    pub mode: Seq<char>,
    /// Entry kind.
    pub kind: Seq<char>,
    /// Object id.
    pub oid: Seq<char>,
    /// File name.
    pub name: Seq<char>,
}

impl View for TreeEntry {
    type V = EntryView;

    open spec fn view(&self) -> EntryView {
        EntryView { mode: self.mode@, kind: self.kind@, oid: self.oid@, name: self.name@ }
    }
}

/// What each tree entry holds.
pub open spec fn entry_views(v: Seq<TreeEntry>) -> Seq<EntryView> {
    v.map_values(|e: TreeEntry| e@)
}

/// The outcome of reading a tree, with the entries by what they hold.
pub open spec fn tree_outcome(r: Result<Vec<TreeEntry>, ObjectError>) -> Result<
    Seq<EntryView>,
    ObjectError,
> {
    match r {
        Ok(v) => Ok(entry_views(v@)),
        Err(e) => Err(e),
    }
}

/// The kind of entry that a mode stands for.
pub open spec fn mode_kind(mode: Seq<char>) -> Seq<char> {
    if mode == "40000"@ || mode == "040000"@ {
        "tree"@
    } else if mode == "160000"@ {
        "commit"@
    } else {
        "blob"@
    }
}

/// The entry at `pos` and where the next one starts: the mode, a space, the
/// name, a NUL byte and the twenty bytes of the object id.
pub open spec fn entry_at(data: Seq<u8>, pos: int) -> Result<(EntryView, int), ObjectError> {
    match bytes::byte_index(data, pos, 0x20) {
        None => Err(ObjectError::BadTreeMode),
        Some(mode_end) => if !valid_utf8(data.subrange(pos, mode_end)) {
            Err(ObjectError::BadTreeModeText)
        } else {
            match bytes::byte_index(data, mode_end + 1, 0) {
                None => Err(ObjectError::BadTreeName),
                Some(name_end) => if name_end + 21 > data.len() {
                    Err(ObjectError::BadTreeOid)
                } else {
                    let mode = decode_utf8(data.subrange(pos, mode_end));
                    Ok(
                        (
                            EntryView {
                                mode,
                                kind: mode_kind(mode),
                                oid: numbers::to_hex(data.subrange(name_end + 1, name_end + 21)),
                                name: text::lossy(data.subrange(mode_end + 1, name_end)),
                            },
                            name_end + 21,
                        ),
                    )
                },
            }
        },
    }
}

/// The entries from `pos` on.
pub open spec fn entries_from(data: Seq<u8>, pos: int) -> Result<Seq<EntryView>, ObjectError>
    decreases data.len() - pos,
{
    if pos < 0 || pos >= data.len() {
        Ok(Seq::empty())
    } else {
        match entry_at(data, pos) {
            Err(e) => Err(e),
            Ok((entry, next)) => match entries_from(data, next) {
                Err(e) => Err(e),
                Ok(rest) => Ok(seq![entry] + rest),
            },
        }
    }
}

/// The kind of entry that a mode stands for.
fn kind_of_mode(mode: &str) -> (r: String)
    ensures
        r@ == mode_kind(mode@),
{
    if same(mode, "40000") || same(mode, "040000") {
        "tree".to_owned()
    } else if same(mode, "160000") {
        "commit".to_owned()
    } else {
        "blob".to_owned()
    }
}

/// Read one tree entry.
fn read_entry(data: &[u8], pos: usize) -> (r: Result<(TreeEntry, usize), ObjectError>)
    requires
        pos <= data@.len(),
    ensures
        (match r {
            Ok(p) => Ok((p.0@, p.1 as int)),
            Err(e) => Err(e),
        }) == entry_at(data@, pos as int),
        r matches Ok(p) ==> pos < p.1 <= data@.len(),
{
    let mode_end: usize = match find_byte(data, pos, 0x20) {
        Some(i) => i,
        None => return Err(ObjectError::BadTreeMode),
    };
    let mode: String = match decode_strict(slice_subrange(data, pos, mode_end)) {
        Some(s) => s,
        None => return Err(ObjectError::BadTreeModeText),
    };
    assert(mode_end < data.len());
    let name_end: usize = match find_byte(data, mode_end + 1, 0) {
        Some(i) => i,
        None => return Err(ObjectError::BadTreeName),
    };
    if data.len() - name_end < 21 {
        return Err(ObjectError::BadTreeOid);
    }
    assert(name_end + 21 <= data.len());
    let name: String = decode_lossy(slice_subrange(data, mode_end + 1, name_end));
    let oid: String = bytes_to_hex(slice_subrange(data, name_end + 1, name_end + 21));
    let kind: String = kind_of_mode(mode.as_str());
    Ok((TreeEntry { mode, kind, oid, name }, name_end + 21))
}

/// Read the entries of a tree object.
pub fn parse_tree(data: &[u8]) -> (r: Result<Vec<TreeEntry>, ObjectError>)
    ensures
        tree_outcome(r) == entries_from(data@, 0),
{
    let mut out: Vec<TreeEntry> = Vec::new();
    let mut pos: usize = 0;
    assert(entry_views(out@) =~= Seq::empty());
    proof {
        if entries_from(data@, 0) is Ok {
            let rest = entries_from(data@, 0)->Ok_0;
            assert(entry_views(out@) + rest =~= rest);
        }
    }
    while pos < data.len()
        invariant
            pos <= data.len(),
            entries_from(data@, 0) == (match entries_from(data@, pos as int) {
                Ok(rest) => Ok::<Seq<EntryView>, ObjectError>(entry_views(out@) + rest),
                Err(e) => Err::<Seq<EntryView>, ObjectError>(e),
            }),
        decreases data.len() - pos,
    {
        let (entry, next) = read_entry(data, pos)?;
        let ghost before = out@;
        out.push(entry);
        proof {
            assert(entry_views(out@) =~= entry_views(before).push(entry@));
            if entries_from(data@, next as int) is Ok {
                let rest = entries_from(data@, next as int)->Ok_0;
                assert(entry_views(before) + (seq![entry@] + rest) =~= entry_views(out@) + rest);
            }
        }
        pos = next;
    }
    assert(entry_views(out@) + Seq::<EntryView>::empty() =~= entry_views(out@));
    Ok(out)
}

}
