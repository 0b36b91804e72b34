//! Commits: what a commit's text says is what its summary shows.

use vstd::prelude::*;
use vstd::utf8::*;
use crate::git::bytes::ObjectError;
use crate::git::commit::{self, CommitView};
use crate::git::object::{self, Kind, ObjectView};
use crate::git::{reader, refs};
use crate::laws::encodings;
use crate::numbers;
use crate::repo::FilesView;
use crate::text::{self, Class};

verus! {

/// The parts of a commit.
pub struct Parts {
    /// The id of the tree.
    pub tree: Seq<char>,
    /// The ids of the parents.
    pub parents: Seq<Seq<char>>,
    /// The author's name.
    pub name: Seq<char>,
    /// The author's mail address.
    pub mail: Seq<char>,
    /// When the author wrote the commit.
    pub time: i64,
    /// The author's time zone.
    pub zone: Seq<char>,
    /// The committer's signature.
    pub committer: Seq<char>,
    /// The first line of the message.
    pub subject: Seq<char>,
    /// The rest of the message.
    pub more: Seq<char>,
}

/// The author's signature.
pub open spec fn signature(p: Parts) -> Seq<char> {
    p.name + " <"@ + p.mail + ">"@ + (" "@ + numbers::signed_decimal(p.time as int) + " "@ + p.zone)
}

/// The header lines of a commit.
pub open spec fn headers(p: Parts) -> Seq<Seq<char>> {
    seq!["tree "@ + p.tree] + p.parents.map_values(|x: Seq<char>| "parent "@ + x) + seq![
        "author "@ + signature(p),
        "committer "@ + p.committer,
    ]
}

/// The text of a commit.
pub open spec fn commit_text(p: Parts) -> Seq<char> {
    text::join(headers(p), "\n"@) + "\n\n"@ + (p.subject + "\n"@ + p.more)
}

/// True for a text that can stand in a line: it holds no line ends.
pub open spec fn one_line(s: Seq<char>) -> bool {
    !s.contains('\n') && !s.contains('\r')
}

/// True for a text without white space at its ends.
pub open spec fn trimmed(s: Seq<char>) -> bool {
    s.len() > 0 ==> !text::is_space(s[0]) && !text::is_space(s.last())
}

/// True when the parts can be written into a commit's text.
pub open spec fn writable(p: Parts) -> bool {
    &&& one_line(p.tree)
    &&& forall|i: int| 0 <= i < p.parents.len() ==> one_line(#[trigger] p.parents[i])
    &&& one_line(p.name) && trimmed(p.name) && !p.name.contains('<')
    &&& one_line(p.mail)
    &&& one_line(p.zone) && !p.zone.contains('>')
    &&& one_line(p.committer)
    &&& one_line(p.subject)
}

// ---------------------------------------------------------------------------
// Lines

/// Two texts that can stand in a line can stand in it together.
pub proof fn lemma_one_line(a: Seq<char>, b: Seq<char>)
    requires
        one_line(a),
        one_line(b),
    ensures
        one_line(a + b),
{
    let s = a + b;
    assert forall|i: int| 0 <= i < s.len() implies s[i] != '\n' && s[i] != '\r' by {
        if i < a.len() {
            assert(s[i] == a[i]);
            assert(a.contains(a[i]));
        } else {
            assert(s[i] == b[i - a.len()]);
            assert(b.contains(b[i - a.len()]));
        }
    }
}

/// The lines of a text that starts with a line and its end.
pub proof fn lemma_lines_cons(a: Seq<char>, rest: Seq<char>)
    requires
        one_line(a),
    ensures
        text::lines(a + "\n"@ + rest) == seq![a] + text::lines(rest),
{
    reveal_strlit("\n");
    let s = a + "\n"@ + rest;
    assert forall|j: int| 0 <= j < a.len() implies s[j] != '\n' by {
        assert(s[j] == a[j]);
        assert(a.contains(a[j]));
    }
    assert(s[a.len() as int] == '\n');
    text::lemma_until_is(s, '\n', a.len() as int);
    assert(s.take(a.len() as int) =~= a);
    assert(s.skip(a.len() as int + 1) =~= rest);
    if a.len() > 0 {
        assert(a.contains(a.last()));
    }
}

/// Joined lines are the lines of the joined text.
pub proof fn lemma_joined_lines(parts: Seq<Seq<char>>)
    requires
        parts.len() > 0,
        forall|i: int|
            0 <= i < parts.len() ==> one_line(#[trigger] parts[i]) && parts[i].len() > 0,
    ensures
        text::lines(text::join(parts, "\n"@)) == parts,
    decreases parts.len(),
{
    reveal_strlit("\n");
    assert(one_line(parts[0]));
    if parts.len() == 1 {
        let s = parts[0];
        assert forall|j: int| 0 <= j < s.len() implies s[j] != '\n' by {
            assert(s.contains(s[j]));
        }
        text::lemma_until_is(s, '\n', s.len() as int);
        assert(text::lines(s) =~= parts);
    } else {
        let rest = parts.drop_first();
        text::lemma_join_first(parts, "\n"@);
        assert forall|i: int| 0 <= i < rest.len() implies one_line(#[trigger] rest[i])
            && rest[i].len() > 0 by {
            assert(rest[i] == parts[i + 1]);
        }
        lemma_joined_lines(rest);
        lemma_lines_cons(parts[0], text::join(rest, "\n"@));
        assert(seq![parts[0]] + rest =~= parts);
    }
}

/// No line feed is followed by another.
pub open spec fn no_gap(s: Seq<char>) -> bool {
    forall|i: int| 0 <= i && i + 1 < s.len() && s[i] == '\n' ==> #[trigger] s[i + 1] != '\n'
}

/// Joined lines that are not empty leave no gap.
pub proof fn lemma_join_no_gap(parts: Seq<Seq<char>>)
    requires
        parts.len() > 0,
        forall|i: int|
            0 <= i < parts.len() ==> one_line(#[trigger] parts[i]) && parts[i].len() > 0,
    ensures
        no_gap(text::join(parts, "\n"@)),
        text::join(parts, "\n"@).len() > 0,
        text::join(parts, "\n"@).last() != '\n',
    decreases parts.len(),
{
    reveal_strlit("\n");
    let last = parts[parts.len() - 1];
    assert(one_line(last));
    assert forall|j: int| 0 <= j < last.len() implies last[j] != '\n' by {
        assert(last.contains(last[j]));
    }
    if parts.len() > 1 {
        let rest = parts.drop_last();
        assert forall|i: int| 0 <= i < rest.len() implies one_line(#[trigger] rest[i])
            && rest[i].len() > 0 by {
            assert(rest[i] == parts[i]);
        }
        lemma_join_no_gap(rest);
        let start = text::join(rest, "\n"@);
        let s = text::join(parts, "\n"@);
        assert(s == start + "\n"@ + last);
        assert forall|i: int| 0 <= i && i + 1 < s.len() && s[i] == '\n' implies #[trigger] s[i + 1]
            != '\n' by {
            if i + 1 < start.len() {
                assert(s[i] == start[i] && s[i + 1] == start[i + 1]);
            } else if i + 1 == start.len() {
                assert(s[i] == start.last());
            } else {
                assert(s[i + 1] == last[i - start.len()]);
            }
        }
        assert(s.last() == last.last());
    }
}

/// The empty line of a commit's text is where the header ends.
pub proof fn lemma_header_end(parts: Seq<Seq<char>>, message: Seq<char>)
    requires
        parts.len() > 0,
        forall|i: int|
            0 <= i < parts.len() ==> one_line(#[trigger] parts[i]) && parts[i].len() > 0,
    ensures
        text::place(text::join(parts, "\n"@) + "\n\n"@ + message, "\n\n"@) == Some(
            text::join(parts, "\n"@).len() as int,
        ),
{
    reveal_strlit("\n\n");
    lemma_join_no_gap(parts);
    let head = text::join(parts, "\n"@);
    let s = head + "\n\n"@ + message;
    let n = head.len() as int;
    assert(s.subrange(n, n + 2) =~= "\n\n"@);
    assert(text::occurs_at(s, "\n\n"@, n));
    assert forall|i: int| 0 <= i < n implies !text::occurs_at(s, "\n\n"@, i) by {
        if text::occurs_at(s, "\n\n"@, i) {
            assert(s.subrange(i, i + 2)[0] == s[i]);
            assert(s.subrange(i, i + 2)[1] == s[i + 1]);
            assert(s[i] == head[i]);
            if i + 1 < n {
                assert(s[i + 1] == head[i + 1]);
            } else {
                assert(head[i] == head.last());
            }
        }
    }
    text::lemma_place_from(s, "\n\n"@, 0);
}

// ---------------------------------------------------------------------------
// Fields

/// A text that starts otherwise does not have the prefix.
proof fn lemma_no_prefix(s: Seq<char>, p: Seq<char>)
    requires
        s.len() > 0,
        p.len() > 0,
        s[0] != p[0],
    ensures
        !text::has_prefix(s, p),
{
    if text::has_prefix(s, p) {
        assert(s.take(p.len() as int)[0] == s[0]);
    }
}

/// A text behind a prefix.
proof fn lemma_prefix(p: Seq<char>, s: Seq<char>)
    ensures
        text::has_prefix(p + s, p),
        (p + s).skip(p.len() as int) == s,
{
    assert((p + s).take(p.len() as int) =~= p);
    assert((p + s).skip(p.len() as int) =~= s);
}

/// The last field of two lists.
proof fn lemma_last_field(a: Seq<Seq<char>>, b: Seq<Seq<char>>, p: Seq<char>)
    ensures
        commit::last_field(a + b, p) == (match commit::last_field(b, p) {
            Some(v) => Some(v),
            None => commit::last_field(a, p),
        }),
    decreases b.len(),
{
    if b.len() == 0 {
        assert(a + b =~= a);
    } else {
        assert((a + b).drop_last() =~= a + b.drop_last());
        assert((a + b).last() == b.last());
        lemma_last_field(a, b.drop_last(), p);
    }
}

/// The fields of two lists.
proof fn lemma_all_fields(a: Seq<Seq<char>>, b: Seq<Seq<char>>, p: Seq<char>)
    ensures
        commit::all_fields(a + b, p) == commit::all_fields(a, p) + commit::all_fields(b, p),
    decreases b.len(),
{
    if b.len() == 0 {
        assert(a + b =~= a);
        assert(commit::all_fields(b, p) =~= Seq::empty());
        assert(commit::all_fields(a, p) + commit::all_fields(b, p) =~= commit::all_fields(a, p));
    } else {
        assert((a + b).drop_last() =~= a + b.drop_last());
        assert((a + b).last() == b.last());
        lemma_all_fields(a, b.drop_last(), p);
        assert(commit::all_fields(a + b, p) =~= commit::all_fields(a, p) + commit::all_fields(b, p));
    }
}

/// The parent lines hold the parents, and no other field.
proof fn lemma_parent_lines(parents: Seq<Seq<char>>)
    ensures
        ({
            let lines = parents.map_values(|x: Seq<char>| "parent "@ + x);
            &&& commit::all_fields(lines, "parent "@) == parents
            &&& commit::last_field(lines, "tree "@) is None
            &&& commit::last_field(lines, "author "@) is None
        }),
    decreases parents.len(),
{
    let lines = parents.map_values(|x: Seq<char>| "parent "@ + x);
    if parents.len() > 0 {
        let rest = parents.drop_last();
        lemma_parent_lines(rest);
        assert(lines.drop_last() =~= rest.map_values(|x: Seq<char>| "parent "@ + x));
        assert(lines.last() == "parent "@ + parents.last());
        lemma_prefix("parent "@, parents.last());
        reveal_strlit("parent ");
        reveal_strlit("tree ");
        reveal_strlit("author ");
        lemma_no_prefix(lines.last(), "tree "@);
        lemma_no_prefix(lines.last(), "author "@);
        assert(rest.push(parents.last()) =~= parents);
    } else {
        assert(lines =~= Seq::empty());
        assert(commit::all_fields(lines, "parent "@) =~= parents);
    }
}

/// What the header lines hold.
proof fn lemma_header_fields(p: Parts)
    ensures
        commit::last_field(headers(p), "tree "@) == Some(p.tree),
        commit::last_field(headers(p), "author "@) == Some(signature(p)),
        commit::all_fields(headers(p), "parent "@) == p.parents,
{
    reveal_strlit("parent ");
    reveal_strlit("tree ");
    reveal_strlit("author ");
    reveal_strlit("committer ");
    let first = seq!["tree "@ + p.tree];
    let middle = p.parents.map_values(|x: Seq<char>| "parent "@ + x);
    let author = "author "@ + signature(p);
    let committer = "committer "@ + p.committer;
    let end = seq![author, committer];
    let none: Seq<Seq<char>> = Seq::empty();
    assert(first.drop_last() =~= none);
    assert(end.drop_last() =~= seq![author]);
    assert(seq![author].drop_last() =~= none);
    lemma_prefix("tree "@, p.tree);
    lemma_prefix("author "@, signature(p));
    lemma_no_prefix(first[0], "parent "@);
    lemma_no_prefix(first[0], "author "@);
    lemma_no_prefix(author, "tree "@);
    lemma_no_prefix(author, "parent "@);
    lemma_no_prefix(committer, "tree "@);
    lemma_no_prefix(committer, "parent "@);
    lemma_no_prefix(committer, "author "@);
    reveal_with_fuel(commit::last_field, 3);
    reveal_with_fuel(commit::all_fields, 3);
    assert(commit::all_fields(first, "parent "@) =~= none);
    assert(commit::all_fields(end, "parent "@) =~= none);
    lemma_parent_lines(p.parents);
    lemma_last_field(first + middle, end, "tree "@);
    lemma_last_field(first, middle, "tree "@);
    lemma_last_field(first + middle, end, "author "@);
    lemma_all_fields(first + middle, end, "parent "@);
    lemma_all_fields(first, middle, "parent "@);
    assert(none + p.parents + none =~= p.parents);
}

// ---------------------------------------------------------------------------
// Signatures

/// What follows the last of a character.
pub proof fn lemma_after_last(a: Seq<char>, c: char, b: Seq<char>)
    requires
        !b.contains(c),
    ensures
        commit::after_last(a + seq![c] + b, c) == b,
    decreases b.len(),
{
    let s = a + seq![c] + b;
    if b.len() == 0 {
        assert(s.last() == c);
        assert(commit::after_last(s, c) =~= b);
    } else {
        let rest = b.drop_last();
        assert(b.contains(b.last()));
        assert(s.last() == b.last());
        assert(s.drop_last() =~= a + seq![c] + rest);
        assert forall|i: int| 0 <= i < rest.len() implies rest[i] != c by {
            assert(rest[i] == b[i]);
            assert(b.contains(b[i]));
        }
        lemma_after_last(a, c, rest);
        assert(rest.push(b.last()) =~= b);
    }
}

/// A trimmed text is what is left when the space behind it is taken off.
proof fn lemma_trim_behind(name: Seq<char>)
    requires
        trimmed(name),
    ensures
        text::trim(name + seq![' '], Class::Space) == name,
{
    let s = name + seq![' '];
    assert(text::is_space(' '));
    if name.len() == 0 {
        assert(s.drop_first() =~= name);
        reveal_with_fuel(text::trim_start, 2);
        assert(text::trim(s, Class::Space) =~= name);
    } else {
        assert(s[0] == name[0]);
        assert(s.last() == ' ');
        assert(s.drop_last() =~= name);
        reveal_with_fuel(text::trim_end, 2);
    }
}

/// The first word of a text that starts with a space and a word.
proof fn lemma_first_word(word: Seq<char>, rest: Seq<char>)
    requires
        word.len() > 0,
        forall|i: int| 0 <= i < word.len() ==> !text::is_space(#[trigger] word[i]),
    ensures
        text::words(seq![' '] + word + seq![' '] + rest).len() > 0,
        text::words(seq![' '] + word + seq![' '] + rest)[0] == word,
{
    let s = seq![' '] + word + seq![' '] + rest;
    let t = word + seq![' '] + rest;
    assert(text::is_space(' '));
    assert(s[0] == ' ');
    assert(s.drop_first() =~= t);
    text::lemma_word_len(t);
    assert(t[word.len() as int] == ' ');
    assert(forall|i: int| 0 <= i < word.len() ==> t[i] == word[i]);
    assert(text::word_len(t) == word.len()) by {
        let n = text::word_len(t) as int;
        if n < word.len() {
            assert(text::is_space(t[n]));
            assert(!text::is_space(word[n]));
        }
        if n > word.len() {
            assert(!text::is_space(t[word.len() as int]));
        }
    }
    assert(t.take(word.len() as int) =~= word);
    assert(!text::is_space(t[0]));
    reveal_with_fuel(text::words, 2);
}

/// A signature gives back the name and the time.
proof fn lemma_signature(p: Parts)
    requires
        writable(p),
    ensures
        commit::signature_name(signature(p)) == p.name,
        commit::signature_time(signature(p)) == p.time,
{
    reveal_strlit(" <");
    reveal_strlit(">");
    reveal_strlit(" ");
    let s = signature(p);
    let n = p.name.len() as int;
    assert forall|j: int| 0 <= j < n + 1 implies s[j] != '<' by {
        if j < n {
            assert(s[j] == p.name[j]);
            assert(p.name.contains(p.name[j]));
        } else {
            assert(s[j] == ' ');
        }
    }
    assert(s[n + 1] == '<');
    text::lemma_until_is(s, '<', n + 1);
    assert(s.take(n + 1) =~= p.name + seq![' ']);
    lemma_trim_behind(p.name);
    let time = numbers::signed_decimal(p.time as int);
    lemma_time_digits(p.time);
    let tail = " "@ + time + " "@ + p.zone;
    assert forall|i: int| 0 <= i < tail.len() implies tail[i] != '>' by {
        if 1 <= i <= time.len() {
            assert(tail[i] == time[i - 1]);
        } else if i > time.len() + 1 {
            assert(tail[i] == p.zone[i - time.len() - 2]);
            assert(p.zone.contains(p.zone[i - time.len() - 2]));
        }
    }
    let start = p.name + " <"@ + p.mail;
    assert(s =~= start + seq!['>'] + tail);
    lemma_after_last(start, '>', tail);
    assert(tail =~= seq![' '] + time + seq![' '] + p.zone);
    lemma_first_word(time, p.zone);
    encodings::law_signed_decimal_round_trip(p.time);
}

proof fn lemma_time_digits(n: i64)
    ensures
        ({
            let s = numbers::signed_decimal(n as int);
            &&& s.len() > 0
            &&& forall|i: int|
                0 <= i < s.len() ==> !text::is_space(#[trigger] s[i]) && s[i] != '>' && s[i] != '\n'
                    && s[i] != '\r'
        }),
{
    let s = numbers::signed_decimal(n as int);
    let magnitude = if n < 0 {
        (-(n as int)) as nat
    } else {
        n as nat
    };
    let digits = numbers::decimal(magnitude);
    encodings::law_decimal_round_trip(magnitude);
    assert forall|i: int| 0 <= i < s.len() implies !text::is_space(#[trigger] s[i]) && s[i] != '>'
        && s[i] != '\n' && s[i] != '\r' by {
        if n < 0 {
            if i > 0 {
                assert(s[i] == digits[i - 1]);
                assert(text::is_digit(digits[i - 1]));
            }
        } else {
            assert(text::is_digit(digits[i]));
        }
    }
}

/// The header lines are lines, and not empty.
proof fn lemma_headers_are_lines(p: Parts)
    requires
        writable(p),
    ensures
        forall|i: int|
            0 <= i < headers(p).len() ==> one_line(#[trigger] headers(p)[i]) && headers(p)[i].len()
                > 0,
{
    reveal_strlit("parent ");
    reveal_strlit("tree ");
    reveal_strlit("author ");
    reveal_strlit("committer ");
    reveal_strlit(" <");
    reveal_strlit(">");
    reveal_strlit(" ");
    lemma_time_digits(p.time);
    let time = numbers::signed_decimal(p.time as int);
    lemma_one_line("tree "@, p.tree);
    lemma_one_line("committer "@, p.committer);
    lemma_one_line(p.name, " <"@);
    lemma_one_line(p.name + " <"@, p.mail);
    lemma_one_line(p.name + " <"@ + p.mail, ">"@);
    lemma_one_line(" "@, time);
    lemma_one_line(" "@ + time, " "@);
    lemma_one_line(" "@ + time + " "@, p.zone);
    lemma_one_line(p.name + " <"@ + p.mail + ">"@, " "@ + time + " "@ + p.zone);
    lemma_one_line("author "@, signature(p));
    assert forall|i: int| 0 <= i < headers(p).len() implies one_line(#[trigger] headers(p)[i])
        && headers(p)[i].len() > 0 by {
        if 1 <= i <= p.parents.len() {
            assert(one_line(p.parents[i - 1]));
            lemma_one_line("parent "@, p.parents[i - 1]);
            assert(headers(p)[i] == "parent "@ + p.parents[i - 1]);
        }
    }
}

/// A commit's summary shows what its text says: tree, parents, author, time, the
/// message and its first line.
pub proof fn law_commit_round_trip(id: Seq<char>, p: Parts)
    requires
        writable(p),
    ensures
        commit::commit_of(id, commit_text(p)) == (CommitView {
            id,
            short_id: commit::short(id),
            subject: p.subject,
            message: p.subject + "\n"@ + p.more,
            author: p.name,
            time: p.time,
            parents: p.parents,
            tree: p.tree,
        }),
{
    reveal_strlit("\n\n");
    let all = commit_text(p);
    let lines = headers(p);
    let head = text::join(lines, "\n"@);
    let message = p.subject + "\n"@ + p.more;
    lemma_headers_are_lines(p);
    lemma_header_end(lines, message);
    lemma_joined_lines(lines);
    let n = head.len() as int;
    assert(all.take(n) =~= head);
    assert(all.skip(n + 2) =~= message);
    lemma_lines_cons(p.subject, p.more);
    lemma_header_fields(p);
    lemma_signature(p);
}

/// A stored commit is shown under its id as its text says.
pub proof fn law_stored_commit_is_shown(files: FilesView, id: Seq<char>, p: Parts)
    requires
        writable(p),
        refs::hex_oid(id),
        text::lower(id) == id,
        object::object(files, id) == Ok::<ObjectView, ObjectError>(
            ObjectView { kind: Kind::Commit, data: encode_utf8(commit_text(p)) },
        ),
    ensures
        reader::commit_at(files, id) == Some(
            CommitView {
                id,
                short_id: commit::short(id),
                subject: p.subject,
                message: p.subject + "\n"@ + p.more,
                author: p.name,
                time: p.time,
                parents: p.parents,
                tree: p.tree,
            },
        ),
{
    law_commit_round_trip(id, p);
    encode_utf8_valid_utf8(commit_text(p));
    encode_utf8_decode_utf8(commit_text(p));
}

}
