//! The files that a clone over plain HTTP asks for.

use vstd::prelude::*;
use vstd::slice::slice_to_vec;
use vstd::utf8::*;
use crate::git::bytes::append_bytes;
use crate::git::reader::{self, head_bytes, info_refs};
use crate::git::refs;
use crate::http::{self, response_bytes};
use crate::repo::{self, FileView, Repo, RepoView, StoredFile};
use crate::sorted::{self, insert_sorted};
use crate::text::{self, ends_with, starts_with};

verus! {

/// The type of what is served as text.
pub const PLAIN: &'static str = "text/plain; charset=utf-8";

/// A short answer in plain text.
pub open spec fn plain_response(status: u16, reason: Seq<char>, body: Seq<char>) -> Seq<u8> {
    http::response_of(status, reason, PLAIN@, encode_utf8(body))
}

/// A short answer in plain text.
pub fn plain(status: u16, reason: &str, body: &str) -> (r: Vec<u8>)
    ensures
        r@ == plain_response(status, reason@, body@),
{
    response_bytes(status, reason, PLAIN, slice_to_vec(body.as_bytes()))
}

/// The answer to a request for `HEAD`.
pub open spec fn head_answer(repo: RepoView) -> Seq<u8> {
    match repo.files.head {
        Some(bytes) => http::response_of(200, "OK"@, PLAIN@, bytes),
        None => plain_response(404, "Not Found"@, "not found"@),
    }
}

/// Serve the file `HEAD`.
pub fn serve_git_head(repo: &Repo) -> (r: Vec<u8>)
    ensures
        r@ == head_answer(repo@),
{
    match head_bytes(repo) {
        Some(bytes) => response_bytes(200, "OK", PLAIN, bytes),
        None => plain(404, "Not Found", "not found"),
    }
}

/// The answer to a request for `info/refs`.
pub open spec fn info_refs_answer(repo: RepoView) -> Seq<u8> {
    http::response_of(
        200,
        "OK"@,
        PLAIN@,
        reader::info_lines(refs::listing(refs::all_refs(repo.files))),
    )
}

/// Serve the list of refs.
pub fn serve_info_refs(repo: &Repo) -> (r: Vec<u8>)
    ensures
        r@ == info_refs_answer(repo@),
{
    response_bytes(200, "OK", PLAIN, info_refs(repo))
}

/// The names of the packs, in order.
pub open spec fn pack_names(files: Seq<FileView>) -> Seq<Seq<char>>
    decreases files.len(),
{
    if files.len() == 0 {
        Seq::empty()
    } else {
        let rest = pack_names(files.drop_last());
        let name = files.last().name;
        if text::has_prefix(name, "pack-"@) && text::has_suffix(name, ".pack"@) {
            sorted::insert::<String>(rest, name)
        } else {
            rest
        }
    }
}

/// A line for each pack.
pub open spec fn pack_lines(names: Seq<Seq<char>>) -> Seq<u8>
    decreases names.len(),
{
    if names.len() == 0 {
        Seq::empty()
    } else {
        pack_lines(names.drop_last()) + encode_utf8("P "@ + names.last() + "\n"@)
    }
}

/// The answer to a request for `objects/info/packs`.
pub open spec fn info_packs_answer(repo: RepoView) -> Seq<u8> {
    http::response_of(200, "OK"@, PLAIN@, pack_lines(pack_names(repo.files.packs)))
}

/// The names of the packs, in order.
fn sorted_packs(files: &Vec<StoredFile>) -> (r: Vec<String>)
    ensures
        text::views(r@) == pack_names(repo::file_views(files@)),
{
    let ghost all = repo::file_views(files@);
    let mut out: Vec<String> = Vec::new();
    let mut i: usize = 0;
    assert(text::views(out@) =~= pack_names(all.take(0)));
    while i < files.len()
        invariant
            all == repo::file_views(files@),
            i <= files.len(),
            text::views(out@) == pack_names(all.take(i as int)),
        decreases files.len() - i,
    {
        assert(all.take(i + 1).drop_last() =~= all.take(i as int));
        assert(all.take(i + 1).last() == files@[i as int]@);
        let name = files[i].name.as_str();
        if starts_with(name, "pack-") && ends_with(name, ".pack") {
            assert(text::views(out@) =~= sorted::views(out@));
            insert_sorted(&mut out, name.to_owned());
            assert(text::views(out@) =~= sorted::views(out@));
        }
        i = i + 1;
    }
    assert(all.take(i as int) =~= all);
    out
}

/// Serve the list of packs.
pub fn serve_info_packs(repo: &Repo) -> (r: Vec<u8>)
    ensures
        r@ == info_packs_answer(repo@),
{
    let names = sorted_packs(&repo.files().packs);
    let ghost all = text::views(names@);
    let mut body: Vec<u8> = Vec::new();
    let mut i: usize = 0;
    assert(body@ =~= pack_lines(all.take(0)));
    while i < names.len()
        invariant
            all == text::views(names@),
            i <= names.len(),
            body@ == pack_lines(all.take(i as int)),
        decreases names.len() - i,
    {
        assert(all.take(i + 1).drop_last() =~= all.take(i as int));
        assert(all.take(i + 1).last() == names@[i as int]@);
        let mut line: String = "P ".to_owned();
        line.append(names[i].as_str());
        line.append("\n");
        append_bytes(&mut body, line.as_str().as_bytes());
        i = i + 1;
    }
    assert(all.take(i as int) =~= all);
    response_bytes(200, "OK", PLAIN, body)
}

/// The type of an object or pack file.
pub open spec fn file_type(clone_path: Seq<char>) -> Seq<char> {
    if text::has_suffix(clone_path, ".pack"@) || text::has_suffix(clone_path, ".idx"@) {
        "application/octet-stream"@
    } else {
        PLAIN@
    }
}

/// The answer that hands out a file's contents, or says that there is none.
pub open spec fn file_answer(clone_path: Seq<char>, contents: Option<Seq<u8>>) -> Seq<u8> {
    match contents {
        Some(bytes) => http::response_of(200, "OK"@, file_type(clone_path), bytes),
        None => plain_response(404, "Not Found"@, "not found"@),
    }
}

/// Hand out a file's contents.
pub fn serve_contents(clone_path: &str, contents: Option<Vec<u8>>) -> (r: Vec<u8>)
    ensures
        r@ == file_answer(
            clone_path@,
            match contents {
                Some(b) => Some(b@),
                None => None,
            },
        ),
{
    match contents {
        Some(bytes) => {
            let kind: &str = if ends_with(clone_path, ".pack") || ends_with(clone_path, ".idx") {
                "application/octet-stream"
            } else {
                PLAIN
            };
            response_bytes(200, "OK", kind, bytes)
        },
        None => plain(404, "Not Found", "not found"),
    }
}

}
