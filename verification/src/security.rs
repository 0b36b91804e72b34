//! Validation of what comes from outside: repository names, Git paths and
//! revisions, clone paths, hosts and URLs.

use vstd::prelude::*;
use vstd::utf8::*;
use crate::text::{
    self, alphanumeric_char, chars_of, contains_char, contains_str, control_char, ends_with, hex_char,
    same, split_at_char, starts_with,
};

verus! {

/// A set of characters that a value may be made of.
#[derive(Clone, Copy, Debug, PartialEq, Eq, Structural)]
pub enum Alphabet {
    /// Hexadecimal digits.
    Hex,
    /// Letters, digits and `/ . _ -`.
    Revision,
    /// Letters, digits and `- .`.
    PackFile,
    /// Letters, digits and `. - : [ ]`.
    Host,
}

/// True when `c` belongs to the alphabet.
pub open spec fn belongs(a: Alphabet, c: char) -> bool {
    match a {
        Alphabet::Hex => text::is_hex_digit(c),
        Alphabet::Revision => text::is_alphanumeric(c) || c == '/' || c == '.' || c == '_' || c
            == '-',
        Alphabet::PackFile => text::is_alphanumeric(c) || c == '-' || c == '.',
        Alphabet::Host => text::is_alphanumeric(c) || c == '.' || c == '-' || c == ':' || c == '['
            || c == ']',
    }
}

/// True when `s` is made of characters of the alphabet.
pub open spec fn made_of(s: Seq<char>, a: Alphabet) -> bool {
    forall|i: int| 0 <= i < s.len() ==> belongs(a, #[trigger] s[i])
}

/// True when `s` holds a control character.
pub open spec fn has_control(s: Seq<char>) -> bool {
    exists|i: int| 0 <= i < s.len() && text::is_control(#[trigger] s[i])
}

/// True when `part` names no file: it is empty, the directory itself or its
/// parent.
pub open spec fn is_dots(part: Seq<char>) -> bool {
    part.len() == 0 || part == "."@ || part == ".."@
}

/// True when no part between slashes is empty, `.` or `..`.
pub open spec fn no_dots(path: Seq<char>) -> bool {
    forall|i: int|
        0 <= i < text::split(path, '/').len() ==> !is_dots(#[trigger] text::split(path, '/')[i])
}

/// What a repository name may be: a single segment of a URL path.
pub open spec fn repo_name_ok(name: Seq<char>) -> bool {
    &&& name.len() > 0
    &&& !name.contains('/')
    &&& !name.contains('\\')
    &&& name != "."@
    &&& !text::occurs(name, ".."@)
    &&& !has_control(name)
}

/// What a path inside a Git tree may be.
pub open spec fn git_path_ok(path: Seq<char>) -> bool {
    ||| path.len() == 0
    ||| {
        &&& !path.contains('\\')
        &&& !path.contains('\0')
        &&& !path.contains(':')
        &&& !has_control(path)
        &&& no_dots(path)
    }
}

/// What a revision may be.
pub open spec fn git_rev_ok(rev: Seq<char>) -> bool {
    &&& rev.len() > 0
    &&& encode_utf8(rev).len() <= 128
    &&& rev[0] != '-'
    &&& !text::occurs(rev, ".."@)
    &&& made_of(rev, Alphabet::Revision)
}

/// The path of a loose object: `objects`, two hexadecimal digits and 38 more.
pub open spec fn loose_object_path(parts: Seq<Seq<char>>) -> bool {
    &&& parts.len() == 3
    &&& parts[0] == "objects"@
    &&& parts[1].len() == 2
    &&& made_of(parts[1], Alphabet::Hex)
    &&& parts[2].len() == 38
    &&& made_of(parts[2], Alphabet::Hex)
}

/// The path of a pack or of its index.
pub open spec fn pack_file_path(parts: Seq<Seq<char>>) -> bool {
    &&& parts.len() == 3
    &&& parts[0] == "objects"@
    &&& parts[1] == "pack"@
    &&& text::has_prefix(parts[2], "pack-"@)
    &&& text::has_suffix(parts[2], ".pack"@) || text::has_suffix(parts[2], ".idx"@)
    &&& made_of(parts[2], Alphabet::PackFile)
}

/// What the path of a file served to a clone may be.
pub open spec fn clone_path_ok(path: Seq<char>) -> bool {
    &&& !has_control(path)
    &&& !path.contains('\\')
    &&& !path.contains('\0')
    &&& !path.contains(':')
    &&& no_dots(path)
    &&& loose_object_path(text::split(path, '/')) || pack_file_path(text::split(path, '/'))
}

/// What a host may be.
pub open spec fn host_ok(host: Seq<char>) -> bool {
    &&& host.len() > 0
    &&& encode_utf8(host).len() <= 255
    &&& made_of(host, Alphabet::Host)
}

/// What the URL of a clone command may be.
pub open spec fn http_url_ok(url: Seq<char>) -> bool {
    &&& encode_utf8(url).len() <= 512
    &&& !has_control(url)
    &&& !url.contains(' ')
    &&& text::has_prefix(url, "https://"@) || text::has_prefix(url, "http://"@)
}

/// Tests whether `s` is made of characters of the alphabet.
fn all_belong(s: &str, a: Alphabet) -> (r: bool)
    ensures
        r == made_of(s@, a),
{
    let v = chars_of(s);
    let mut i: usize = 0;
    while i < v.len()
        invariant
            v@ == s@,
            i <= v.len(),
            forall|j: int| 0 <= j < i ==> belongs(a, #[trigger] v@[j]),
        decreases v.len() - i,
    {
        let c: char = v[i];
        let ok: bool = match a {
            Alphabet::Hex => hex_char(c),
            Alphabet::Revision => alphanumeric_char(c) || c == '/' || c == '.' || c == '_' || c
                == '-',
            Alphabet::PackFile => alphanumeric_char(c) || c == '-' || c == '.',
            Alphabet::Host => alphanumeric_char(c) || c == '.' || c == '-' || c == ':' || c == '['
                || c == ']',
        };
        if !ok {
            assert(!belongs(a, s@[i as int]));
            return false;
        }
        i = i + 1;
    }
    true
}

/// Returns true when the string contains control characters.
pub fn has_control_chars(input: &str) -> (r: bool)
    ensures
        r == has_control(input@),
{
    let v = chars_of(input);
    let mut i: usize = 0;
    while i < v.len()
        invariant
            v@ == input@,
            i <= v.len(),
            forall|j: int| 0 <= j < i ==> !text::is_control(#[trigger] v@[j]),
        decreases v.len() - i,
    {
        if control_char(v[i]) {
            assert(text::is_control(input@[i as int]));
            return true;
        }
        i = i + 1;
    }
    false
}

/// Validate repository names as a single safe URL path segment.
pub fn safe_repo_name(name: &str) -> (r: bool)
    ensures
        r == repo_name_ok(name@),
{
    !name.is_empty() && !contains_char(name, '/') && !contains_char(name, '\\') && !same(name, ".")
        && !contains_str(name, "..") && !has_control_chars(name)
}

/// Tests whether a part between slashes names no file.
fn dots(part: &str) -> (r: bool)
    ensures
        r == is_dots(part@),
{
    part.is_empty() || same(part, ".") || same(part, "..")
}

/// Tests whether no part is empty, `.` or `..`.
fn without_dots(parts: &Vec<String>) -> (r: bool)
    ensures
        r == (forall|i: int|
            0 <= i < text::views(parts@).len() ==> !is_dots(#[trigger] text::views(parts@)[i])),
{
    let ghost all = text::views(parts@);
    let mut i: usize = 0;
    while i < parts.len()
        invariant
            all == text::views(parts@),
            i <= parts.len(),
            forall|j: int| 0 <= j < i ==> !is_dots(#[trigger] all[j]),
        decreases parts.len() - i,
    {
        assert(all[i as int] == parts@[i as int]@);
        if dots(parts[i].as_str()) {
            return false;
        }
        i = i + 1;
    }
    true
}

/// Validate a path inside a Git tree, not the host filesystem.
pub fn safe_git_path(path: &str) -> (r: bool)
    ensures
        r == git_path_ok(path@),
{
    if path.is_empty() {
        return true;
    }
    if contains_char(path, '\\') || contains_char(path, '\0') || contains_char(path, ':')
        || has_control_chars(path) {
        return false;
    }
    let parts = split_at_char(path, '/');
    without_dots(&parts)
}

/// Validate a Git revision accepted by the UI.
pub fn safe_git_rev(rev: &str) -> (r: bool)
    ensures
        r == git_rev_ok(rev@),
{
    if rev.is_empty() || rev.as_bytes().len() > 128 {
        return false;
    }
    let v = chars_of(rev);
    if v[0] == '-' || contains_str(rev, "..") {
        return false;
    }
    all_belong(rev, Alphabet::Revision)
}

/// Validate file paths used by dumb HTTP clone endpoints.
pub fn safe_clone_file_path(path: &str) -> (r: bool)
    ensures
        r == clone_path_ok(path@),
{
    if has_control_chars(path) || contains_char(path, '\\') || contains_char(path, '\0')
        || contains_char(path, ':') {
        return false;
    }
    let parts = split_at_char(path, '/');
    let ghost all = text::views(parts@);
    if !without_dots(&parts) {
        return false;
    }
    if parts.len() != 3 || !same(parts[0].as_str(), "objects") {
        assert(parts@.len() == 3 ==> all[0] == parts@[0]@);
        return false;
    }
    assert(all[0] == parts@[0]@);
    assert(all[1] == parts@[1]@);
    assert(all[2] == parts@[2]@);
    let a = parts[1].as_str();
    let b = parts[2].as_str();
    if chars_of(a).len() == 2 && chars_of(b).len() == 38 && all_belong(a, Alphabet::Hex)
        && all_belong(b, Alphabet::Hex) {
        return true;
    }
    same(a, "pack") && starts_with(b, "pack-") && (ends_with(b, ".pack") || ends_with(b, ".idx"))
        && all_belong(b, Alphabet::PackFile)
}

/// Validate HTTP Host values used to render local clone commands.
pub fn safe_host(host: &str) -> (r: bool)
    ensures
        r == host_ok(host@),
{
    !host.is_empty() && host.as_bytes().len() <= 255 && all_belong(host, Alphabet::Host)
}

/// Validate a configured public HTTP(S) base URL.
pub fn safe_http_clone_url(url: &str) -> (r: bool)
    ensures
        r == http_url_ok(url@),
{
    url.as_bytes().len() <= 512 && !has_control_chars(url) && !contains_char(url, ' ') && (
    starts_with(url, "https://") || starts_with(url, "http://"))
}

}
