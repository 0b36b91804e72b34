//! Commit objects.

use vstd::prelude::*;
use vstd::slice::slice_subrange;
use vstd::utf8::*;
use crate::numbers::{self, parse_i64};
use crate::text::{
    self, chars_of, decode_lossy, find_chars, split_lines, split_words, string_of, strip_prefix,
    trimmed, Class,
};

verus! {

/// A commit as the pages show it.
#[derive(Clone, Debug)]
pub struct CommitSummary {
    /// Full object id.
    pub id: String,
    /// Short object id.
    pub short_id: String,
    /// Commit subject line.
    pub subject: String,
    /// The whole commit message.
    pub message: String,
    /// Author display name.
    pub author: String,
    /// Commit timestamp as seconds since Unix epoch.
    pub time: i64,
    /// Parent commit ids.
    pub parents: Vec<String>,
    /// The id of the commit's tree.
    pub tree: String,
}

/// What a commit summary holds.
pub struct CommitView {
    /// Full object id.
    pub id: Seq<char>,
    /// Short object id.
    pub short_id: Seq<char>,
    /// Commit subject line.
    pub subject: Seq<char>,
    /// The whole commit message.
    pub message: Seq<char>,
    /// Author display name.
    pub author: Seq<char>,
    /// Commit timestamp.
    pub time: i64,
    /// Parent commit ids.
    pub parents: Seq<Seq<char>>,
    /// The id of the commit's tree.
    pub tree: Seq<char>,
}

impl View for CommitSummary {
    type V = CommitView;

    open spec fn view(&self) -> CommitView {
        CommitView {
            id: self.id@,
            short_id: self.short_id@,
            subject: self.subject@,
            message: self.message@,
            author: self.author@,
            time: self.time,
            parents: text::views(self.parents@),
            tree: self.tree@,
        }
    }
}

/// What each commit summary holds.
pub open spec fn commit_views(v: Seq<CommitSummary>) -> Seq<CommitView> {
    v.map_values(|c: CommitSummary| c@)
}

/// The first eight bytes of an id; the whole id when it is shorter or when a
/// character lies across that place.
pub open spec fn short(id: Seq<char>) -> Seq<char> {
    let b = encode_utf8(id);
    if 8 <= b.len() && is_char_boundary(b, 8) {
        decode_utf8(b.take(8))
    } else {
        id
    }
}

/// What the last line with that prefix holds after it.
pub open spec fn last_field(lines: Seq<Seq<char>>, prefix: Seq<char>) -> Option<Seq<char>>
    decreases lines.len(),
{
    if lines.len() == 0 {
        None
    } else if text::has_prefix(lines.last(), prefix) {
        Some(lines.last().skip(prefix.len() as int))
    } else {
        last_field(lines.drop_last(), prefix)
    }
}

/// What the lines with that prefix hold after it.
pub open spec fn all_fields(lines: Seq<Seq<char>>, prefix: Seq<char>) -> Seq<Seq<char>>
    decreases lines.len(),
{
    if lines.len() == 0 {
        Seq::empty()
    } else if text::has_prefix(lines.last(), prefix) {
        all_fields(lines.drop_last(), prefix).push(lines.last().skip(prefix.len() as int))
    } else {
        all_fields(lines.drop_last(), prefix)
    }
}

/// What follows the last `c` of `s`; all of `s` when there is none.
pub open spec fn after_last(s: Seq<char>, c: char) -> Seq<char>
    decreases s.len(),
{
    if s.len() == 0 {
        s
    } else if s.last() == c {
        Seq::empty()
    } else {
        after_last(s.drop_last(), c).push(s.last())
    }
}

/// The name in a signature: what stands before the mail address.
pub open spec fn signature_name(value: Seq<char>) -> Seq<char> {
    text::trim(value.take(text::until(value, '<') as int), Class::Space)
}

/// The time in a signature: the first word after the mail address, or zero when
/// that is no 64-bit integer.
pub open spec fn signature_time(value: Seq<char>) -> i64 {
    let words = text::words(after_last(value, '>'));
    if words.len() == 0 {
        0
    } else {
        match numbers::i64_value(words[0]) {
            Some(v) => v,
            None => 0,
        }
    }
}

/// The header lines of a commit's text.
pub open spec fn header_lines(commit: Seq<char>) -> Seq<Seq<char>> {
    match text::place(commit, "\n\n"@) {
        Some(i) => text::lines(commit.take(i)),
        None => text::lines(commit),
    }
}

/// A commit's message: what follows the first empty line of its text.
pub open spec fn message_of(commit: Seq<char>) -> Seq<char> {
    match text::place(commit, "\n\n"@) {
        Some(i) => commit.skip(i + 2),
        None => Seq::empty(),
    }
}

/// The first line of a commit's message.
pub open spec fn message_subject(message: Seq<char>) -> Seq<char> {
    let lines = text::lines(message);
    if lines.len() == 0 {
        Seq::empty()
    } else {
        lines[0]
    }
}

/// The commit `id` with that text.
pub open spec fn commit_of(id: Seq<char>, commit: Seq<char>) -> CommitView {
    let headers = header_lines(commit);
    let author = last_field(headers, "author "@);
    CommitView {
        id,
        short_id: short(id),
        subject: message_subject(message_of(commit)),
        message: message_of(commit),
        author: match author {
            Some(v) => signature_name(v),
            None => Seq::empty(),
        },
        time: match author {
            Some(v) => signature_time(v),
            None => 0,
        },
        parents: all_fields(headers, "parent "@),
        tree: match last_field(headers, "tree "@) {
            Some(v) => v,
            None => Seq::empty(),
        },
    }
}

/// The short form of an id.
pub fn short_id(id: &str) -> (r: String)
    ensures
        r@ == short(id@),
{
    let n: usize = id.as_bytes().len();
    if 8 <= n && id.is_char_boundary(8) {
        let (start, _rest) = id.split_at(8);
        proof {
            assert(encode_utf8(start@) =~= encode_utf8(id@).take(8));
            encode_utf8_decode_utf8(start@);
        }
        start.to_owned()
    } else {
        id.to_owned()
    }
}

/// What follows the last `c` of `s`.
fn tail_after(s: &str, c: char) -> (r: String)
    ensures
        r@ == after_last(s@, c),
{
    let v = chars_of(s);
    let mut i: usize = v.len();
    assert(s@.take(s@.len() as int) =~= s@);
    assert(after_last(s@, c) =~= after_last(s@, c) + s@.skip(i as int));
    while i > 0 && v[i - 1] != c
        invariant
            v@ == s@,
            i <= v.len(),
            after_last(s@, c) == after_last(s@.take(i as int), c) + s@.skip(i as int),
        decreases i,
    {
        proof {
            let t = s@.take(i as int);
            assert(t.drop_last() =~= s@.take(i - 1));
            assert(t.last() == s@[i - 1]);
            assert(after_last(s@.take(i - 1), c).push(s@[i - 1]) + s@.skip(i as int) =~= after_last(
                s@.take(i - 1),
                c,
            ) + s@.skip(i - 1));
        }
        i = i - 1;
    }
    assert(s@.subrange(i as int, s@.len() as int) =~= s@.skip(i as int));
    assert(after_last(s@, c) =~= s@.skip(i as int));
    string_of(slice_subrange(v.as_slice(), i, v.len()))
}

/// Read a signature: the name and the time.
pub fn parse_signature(value: &str) -> (r: (String, i64))
    ensures
        r.0@ == signature_name(value@),
        r.1 == signature_time(value@),
{
    proof {
        text::lemma_until(value@, '<');
    }
    let head: String = match text::split_pair(value, '<') {
        Some((head, _rest)) => head,
        None => {
            assert(value@.take(value@.len() as int) =~= value@);
            value.to_owned()
        },
    };
    let name = trimmed(head.as_str(), Class::Space);
    let tail = tail_after(value, '>');
    let words = split_words(tail.as_str());
    assert(text::views(words@).len() == words@.len());
    let time: i64 = if words.len() == 0 {
        0
    } else {
        assert(text::views(words@)[0] == words@[0]@);
        match parse_i64(words[0].as_str()) {
            Some(v) => v,
            None => 0,
        }
    };
    (name, time)
}

/// Read a commit from its text.
pub fn parse_commit_text(oid: String, commit: &str) -> (r: CommitSummary)
    ensures
        r@ == commit_of(oid@, commit@),
{
    let v = chars_of(commit);
    let blank = chars_of("\n\n");
    proof {
        reveal_strlit("\n\n");
    }
    let (headers, message): (Vec<String>, String) = match find_chars(
        v.as_slice(),
        blank.as_slice(),
    ) {
        Some(i) => {
            let head = string_of(slice_subrange(v.as_slice(), 0, i));
            assert(head@ =~= commit@.take(i as int));
            let message = string_of(slice_subrange(v.as_slice(), i + 2, v.len()));
            assert(message@ =~= commit@.skip(i + 2));
            (split_lines(head.as_str()), message)
        },
        None => (split_lines(commit), String::new()),
    };
    let lines = split_lines(message.as_str());
    assert(text::views(lines@).len() == lines@.len());
    let subject: String = if lines.len() == 0 {
        String::new()
    } else {
        assert(text::views(lines@)[0] == lines@[0]@);
        lines[0].as_str().to_owned()
    };
    let ghost all = header_lines(commit@);
    let mut tree: Option<String> = None;
    let mut parents: Vec<String> = Vec::new();
    let mut author: String = String::new();
    let mut time: i64 = 0;
    let mut i: usize = 0;
    assert(text::views(parents@) =~= Seq::empty());
    while i < headers.len()
        invariant
            all == text::views(headers@),
            i <= headers.len(),
            (match tree {
                Some(t) => Some(t@),
                None => None,
            }) == last_field(all.take(i as int), "tree "@),
            text::views(parents@) == all_fields(all.take(i as int), "parent "@),
            author@ == (match last_field(all.take(i as int), "author "@) {
                Some(a) => signature_name(a),
                None => Seq::empty(),
            }),
            time == (match last_field(all.take(i as int), "author "@) {
                Some(a) => signature_time(a),
                None => 0,
            }),
        decreases headers.len() - i,
    {
        let line: &str = headers[i].as_str();
        proof {
            assert(all.take(i + 1).drop_last() =~= all.take(i as int));
            assert(all.take(i + 1).last() == line@);
        }
        match strip_prefix(line, "tree ") {
            Some(t) => tree = Some(t),
            None => {},
        }
        match strip_prefix(line, "parent ") {
            Some(p) => {
                let ghost before = parents@;
                parents.push(p);
                assert(text::views(parents@) =~= text::views(before).push(p@));
            },
            None => {},
        }
        match strip_prefix(line, "author ") {
            Some(a) => {
                let (name, ts) = parse_signature(a.as_str());
                author = name;
                time = ts;
            },
            None => {},
        }
        i = i + 1;
    }
    assert(all.take(i as int) =~= all);
    let short_id = short_id(oid.as_str());
    let tree: String = match tree {
        Some(t) => t,
        None => String::new(),
    };
    CommitSummary { id: oid, short_id, subject, message, author, time, parents, tree }
}

/// Read a commit object.
pub fn parse_commit(oid: String, data: &[u8]) -> (r: CommitSummary)
    ensures
        r@ == commit_of(oid@, text::lossy(data@)),
{
    let commit = decode_lossy(data);
    parse_commit_text(oid, commit.as_str())
}

}
