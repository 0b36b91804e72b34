//! Headers: what stands before a commit's message, whatever headers there are.

use vstd::prelude::*;
use crate::git::commit;
use crate::laws::{commits, encodings, texts};
use crate::numbers;
use crate::text;

verus! {

// ---------------------------------------------------------------------------
// Fields

/// The lines that start with a field's name, in their order.
pub open spec fn lines_of(lines: Seq<Seq<char>>, field: Seq<char>) -> Seq<Seq<char>> {
    lines.filter(|l: Seq<char>| field.is_prefix_of(l))
}

proof fn lemma_starts(s: Seq<char>, p: Seq<char>)
    ensures
        p.is_prefix_of(s) <==> text::has_prefix(s, p),
{
    if p.is_prefix_of(s) {
        assert(s.take(p.len() as int) =~= p);
    }
    if text::has_prefix(s, p) {
        assert(p =~= s.subrange(0, p.len() as int));
    }
}

proof fn lemma_fields(lines: Seq<Seq<char>>, field: Seq<char>)
    ensures
        commit::all_fields(lines, field) == lines_of(lines, field).map_values(
            |l: Seq<char>| l.skip(field.len() as int),
        ),
        commit::last_field(lines, field) == (if lines_of(lines, field).len() == 0 {
            None
        } else {
            Some(lines_of(lines, field).last().skip(field.len() as int))
        }),
    decreases lines.len(),
{
    reveal(Seq::filter);
    let some = lines_of(lines, field);
    let cut = some.map_values(|l: Seq<char>| l.skip(field.len() as int));
    if lines.len() > 0 {
        let rest = lines.drop_last();
        lemma_fields(rest, field);
        lemma_starts(lines.last(), field);
        let fewer = lines_of(rest, field);
        if field.is_prefix_of(lines.last()) {
            assert(some == fewer.push(lines.last()));
            assert(cut =~= fewer.map_values(|l: Seq<char>| l.skip(field.len() as int)).push(
                lines.last().skip(field.len() as int),
            ));
        } else {
            assert(some == fewer);
        }
    } else {
        assert(cut =~= Seq::empty());
        assert(some =~= Seq::empty());
    }
}

/// True when lines can stand before the message of a commit.
pub open spec fn are_headers(lines: Seq<Seq<char>>) -> bool {
    &&& lines.len() > 0
    &&& forall|i: int|
        0 <= i < lines.len() ==> commits::one_line(#[trigger] lines[i]) && lines[i].len() > 0
}

/// True when a summary says what the headers say: every parent in order, and the
/// last tree and author.
pub open spec fn says(c: commit::CommitView, lines: Seq<Seq<char>>) -> bool {
    let trees = lines_of(lines, "tree "@);
    let authors = lines_of(lines, "author "@);
    &&& c.parents == lines_of(lines, "parent "@).map_values(|l: Seq<char>| l.skip(7))
    &&& c.tree == if trees.len() == 0 {
        Seq::empty()
    } else {
        trees.last().skip(5)
    }
    &&& authors.len() == 0 ==> c.author.len() == 0 && c.time == 0
    &&& authors.len() > 0 ==> c.author == commit::signature_name(authors.last().skip(7)) && c.time
        == commit::signature_time(authors.last().skip(7))
}

proof fn lemma_says(id: Seq<char>, s: Seq<char>, lines: Seq<Seq<char>>)
    requires
        commit::header_lines(s) == lines,
    ensures
        says(commit::commit_of(id, s), lines),
{
    reveal_strlit("tree ");
    reveal_strlit("parent ");
    reveal_strlit("author ");
    assert("tree "@.len() == 5 && "parent "@.len() == 7 && "author "@.len() == 7);
    lemma_fields(lines, "tree "@);
    lemma_fields(lines, "parent "@);
    lemma_fields(lines, "author "@);
}

/// A commit's summary says what its headers say, whatever other headers stand among
/// them, and its message is what follows the empty line.
pub proof fn law_headers_are_read(id: Seq<char>, lines: Seq<Seq<char>>, message: Seq<char>)
    requires
        are_headers(lines),
    ensures
        ({
            let c = commit::commit_of(id, text::join(lines, "\n"@) + "\n\n"@ + message);
            &&& says(c, lines)
            &&& c.id == id
            &&& c.message == message
        }),
{
    reveal_strlit("\n\n");
    let head = text::join(lines, "\n"@);
    let s = head + "\n\n"@ + message;
    commits::lemma_header_end(lines, message);
    commits::lemma_joined_lines(lines);
    assert(s.take(head.len() as int) =~= head);
    assert(s.skip(head.len() as int + 2) =~= message);
    lemma_says(id, s, lines);
}

/// A commit without an empty line has headers only.
pub proof fn law_commit_without_message_is_read(id: Seq<char>, lines: Seq<Seq<char>>)
    requires
        are_headers(lines),
    ensures
        ({
            let c = commit::commit_of(id, text::join(lines, "\n"@));
            &&& says(c, lines)
            &&& c.id == id
            &&& c.message.len() == 0
            &&& c.subject.len() == 0
        }),
{
    reveal_strlit("\n\n");
    let s = text::join(lines, "\n"@);
    commits::lemma_joined_lines(lines);
    commits::lemma_join_no_gap(lines);
    text::lemma_place_from(s, "\n\n"@, 0);
    match text::place(s, "\n\n"@) {
        None => {},
        Some(i) => {
            assert(text::occurs_at(s, "\n\n"@, i));
            assert(s.subrange(i, i + 2)[0] == s[i]);
            assert(s.subrange(i, i + 2)[1] == s[i + 1]);
        },
    }
    texts::law_line_ends(Seq::empty(), Seq::empty());
    lemma_says(id, s, lines);
}

/// The subject is the first line of the message.
pub proof fn law_subject_is_the_first_line(line: Seq<char>, rest: Seq<char>)
    requires
        !line.contains('\n'),
        line.len() > 0 ==> line.last() != '\r',
    ensures
        commit::message_subject(line + seq!['\n'] + rest) == line,
        commit::message_subject(line) == line,
{
    texts::law_line_ends(line, rest);
    assert(text::lines(line + seq!['\n'] + rest)[0] == line);
    if line.len() > 0 {
        assert(text::lines(line)[0] == line);
    } else {
        assert(line =~= Seq::empty());
    }
}

// ---------------------------------------------------------------------------
// Signatures

/// The name of a signature is what stands before the mail address, without the
/// white space around it; all of it where there is no address.
pub proof fn law_name_stands_before_mail(
    a: Seq<char>,
    name: Seq<char>,
    b: Seq<char>,
    rest: Seq<char>,
)
    requires
        texts::all_blank(a),
        texts::all_blank(b),
        name.len() > 0 ==> !texts::blank(name[0]) && !texts::blank(name.last()),
        !(a + name + b).contains('<'),
    ensures
        commit::signature_name(a + name + b + seq!['<'] + rest) == name,
        commit::signature_name(a + name + b) == name,
{
    let head = a + name + b;
    let n = head.len() as int;
    texts::law_blanks_around_are_taken_off(a, name, b);
    assert forall|j: int| 0 <= j < n implies head[j] != '<' by {
        assert(head.contains(head[j]));
    }
    text::lemma_until_is(head, '<', n);
    assert(head.take(n) =~= head);
    let s = head + seq!['<'] + rest;
    assert forall|j: int| 0 <= j < n implies s[j] != '<' by {
        assert(s[j] == head[j]);
    }
    assert(s[n] == '<');
    text::lemma_until_is(s, '<', n);
    assert(s.take(n) =~= head);
}

/// The time of a signature is the first word behind the mail address, if that is a
/// number of 64 bits, else zero.
pub proof fn law_time_stands_behind_mail(front: Seq<char>, tail: Seq<char>, time: i64)
    requires
        !tail.contains('>'),
    ensures
        text::words(tail).len() == 0 ==> commit::signature_time(front + seq!['>'] + tail) == 0,
        text::words(tail).len() > 0 && text::words(tail)[0] == numbers::signed_decimal(time as int)
            ==> commit::signature_time(front + seq!['>'] + tail) == time,
        text::words(tail).len() > 0 && !is_number(text::words(tail)[0]) ==> commit::signature_time(
            front + seq!['>'] + tail,
        ) == 0,
{
    assert forall|i: int| 0 <= i < tail.len() implies tail[i] != '>' by {
        assert(tail.contains(tail[i]));
    }
    commits::lemma_after_last(front, '>', tail);
    encodings::law_signed_decimal_round_trip(time);
    if text::words(tail).len() > 0 {
        law_numbers_are_digits(text::words(tail)[0]);
    }
}

// ---------------------------------------------------------------------------
// Numbers

/// True for a text of digits, one at least.
pub open spec fn only_digits(s: Seq<char>) -> bool {
    s.len() > 0 && forall|i: int| 0 <= i < s.len() ==> texts::digit(#[trigger] s[i])
}

/// True for a text with a sign at its start.
pub open spec fn has_sign(s: Seq<char>) -> bool {
    s.len() > 0 && (s[0] == '+' || s[0] == '-')
}

/// True for digits, with at most one sign before them.
pub open spec fn is_number(s: Seq<char>) -> bool {
    if has_sign(s) {
        only_digits(s.drop_first())
    } else {
        only_digits(s)
    }
}

proof fn lemma_only_digits(s: Seq<char>)
    ensures
        numbers::all_digits(s) <==> only_digits(s),
{
    if numbers::all_digits(s) {
        assert forall|i: int| 0 <= i < s.len() implies texts::digit(#[trigger] s[i]) by {
            assert(text::is_digit(s[i]));
        }
    }
    if only_digits(s) {
        assert forall|i: int| 0 <= i < s.len() implies text::is_digit(#[trigger] s[i]) by {
            assert(texts::digit(s[i]));
        }
    }
}

/// What is no number is not read as one, nor is a number that 64 bits cannot hold;
/// every other number is read as its value.
pub proof fn law_numbers_are_digits(s: Seq<char>)
    ensures
        !is_number(s) ==> numbers::i64_value(s) is None,
        is_number(s) && (value_of(s) < i64::MIN || value_of(s) > i64::MAX) ==> numbers::i64_value(s)
            is None,
        is_number(s) && i64::MIN <= value_of(s) <= i64::MAX ==> numbers::i64_value(s) == Some(
            value_of(s) as i64,
        ),
{
    lemma_only_digits(s);
    lemma_only_digits(s.drop_first());
    lemma_digits(s);
    lemma_digits(s.drop_first());
}

/// The value of digits: the last counts once, and what stands before it ten times.
pub open spec fn weight(digits: Seq<char>) -> nat
    decreases digits.len(),
{
    if digits.len() == 0 {
        0
    } else {
        10 * weight(digits.drop_last()) + (digits.last() as u32 - 48) as nat
    }
}

/// The value of a number with its sign.
pub open spec fn value_of(s: Seq<char>) -> int {
    if s.len() > 0 && s[0] == '-' {
        -(weight(s.drop_first()) as int)
    } else if s.len() > 0 && s[0] == '+' {
        weight(s.drop_first()) as int
    } else {
        weight(s) as int
    }
}

proof fn lemma_digits(s: Seq<char>)
    ensures
        numbers::digits_value(s) == weight(s),
    decreases s.len(),
{
    if s.len() > 0 {
        lemma_digits(s.drop_last());
    }
}

/// The digit of a number below sixteen, in small letters.
pub open spec fn digit_of(n: int) -> u32 {
    if n < 10 {
        (48 + n) as u32
    } else {
        (87 + n) as u32
    }
}

/// Bytes are written in hexadecimal as two digits each, the high one first.
pub proof fn law_bytes_are_written_in_hex(bytes: Seq<u8>, b: u8)
    ensures
        numbers::to_hex(Seq::empty()) == Seq::<char>::empty(),
        numbers::to_hex(bytes.push(b)).len() == numbers::to_hex(bytes).len() + 2,
        numbers::to_hex(bytes.push(b)).take(numbers::to_hex(bytes).len() as int)
            == numbers::to_hex(bytes),
        numbers::to_hex(bytes.push(b))[numbers::to_hex(bytes).len() as int] as u32 == digit_of(
            b as int / 16,
        ),
        numbers::to_hex(bytes.push(b)).last() as u32 == digit_of(b as int % 16),
{
    assert(bytes.push(b).drop_last() =~= bytes);
    let all = numbers::to_hex(bytes.push(b));
    assert(all.take(numbers::to_hex(bytes).len() as int) =~= numbers::to_hex(bytes));
}

}
