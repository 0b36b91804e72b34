//! A small Git reader.
//!
//! This is not a general Git implementation. It covers what the browser uses:
//! refs, loose objects, pack and index lookup, offset and reference deltas,
//! commit parsing, tree traversal and blob reads.

pub mod bytes;
pub mod commit;
pub mod delta;
pub mod idx;
pub mod object;
pub mod pack;
pub mod reader;
pub mod refs;
pub mod tree;

pub use self::commit::CommitSummary;
pub use self::reader::{
    blob, branches, commit, description, head_bytes, info_refs, recent_commits, refs,
    search_commits, tree_entries,
};
pub use self::refs::RefInfo;
pub use self::tree::TreeEntry;
