//! Texts: characters, words, lines, and where one text stands in another.

use vstd::prelude::*;
use crate::text::{self, Class};

verus! {

// ---------------------------------------------------------------------------
// Characters

/// A small letter from `a` to `z`.
pub open spec fn small(c: char) -> bool {
    97 <= c as u32 <= 122
}

/// A capital from `A` to `Z`.
pub open spec fn capital(c: char) -> bool {
    65 <= c as u32 <= 90
}

/// A digit from `0` to `9`.
pub open spec fn digit(c: char) -> bool {
    48 <= c as u32 <= 57
}

/// What leaves no mark on a page: the blanks, tabs and line ends of Unicode.
pub open spec fn blank(c: char) -> bool {
    seq![
        '\t',
        '\n',
        '\u{b}',
        '\u{c}',
        '\r',
        ' ',
        '\u{85}',
        '\u{a0}',
        '\u{1680}',
        '\u{2000}',
        '\u{2001}',
        '\u{2002}',
        '\u{2003}',
        '\u{2004}',
        '\u{2005}',
        '\u{2006}',
        '\u{2007}',
        '\u{2008}',
        '\u{2009}',
        '\u{200a}',
        '\u{2028}',
        '\u{2029}',
        '\u{202f}',
        '\u{205f}',
        '\u{3000}',
    ].contains(c)
}

/// True when all of a text is blank.
pub open spec fn all_blank(s: Seq<char>) -> bool {
    forall|i: int| 0 <= i < s.len() ==> blank(#[trigger] s[i])
}

/// What counts as white space is what is blank.
pub proof fn law_white_space_is_blank(c: char)
    ensures
        text::is_space(c) <==> blank(c),
{
    let all = seq![
        '\t',
        '\n',
        '\u{b}',
        '\u{c}',
        '\r',
        ' ',
        '\u{85}',
        '\u{a0}',
        '\u{1680}',
        '\u{2000}',
        '\u{2001}',
        '\u{2002}',
        '\u{2003}',
        '\u{2004}',
        '\u{2005}',
        '\u{2006}',
        '\u{2007}',
        '\u{2008}',
        '\u{2009}',
        '\u{200a}',
        '\u{2028}',
        '\u{2029}',
        '\u{202f}',
        '\u{205f}',
        '\u{3000}',
    ];
    assert(forall|i: int| 0 <= i < all.len() ==> text::is_space(#[trigger] all[i]));
    if text::is_space(c) {
        assert(c == all[0] || c == all[1] || c == all[2] || c == all[3] || c == all[4] || c
            == all[5] || c == all[6] || c == all[7] || c == all[8] || c == all[9] || c == all[10]
            || c == all[11] || c == all[12] || c == all[13] || c == all[14] || c == all[15] || c
            == all[16] || c == all[17] || c == all[18] || c == all[19] || c == all[20] || c
            == all[21] || c == all[22] || c == all[23] || c == all[24]);
    }
}

/// An id of forty characters is one of digits and of letters up to `f`.
pub open spec fn is_id(s: Seq<char>) -> bool {
    s.len() == 40 && forall|i: int|
        0 <= i < s.len() ==> digit(#[trigger] s[i]) || 97 <= s[i] as u32 <= 102 || 65
            <= s[i] as u32 <= 70
}

/// Object ids are the texts of forty hexadecimal digits, in either case.
pub proof fn law_object_ids(s: Seq<char>)
    ensures
        crate::git::refs::hex_oid(s) <==> is_id(s),
{
    if is_id(s) {
        assert forall|i: int| 0 <= i < s.len() implies text::is_hex_digit(#[trigger] s[i]) by {
            assert(digit(s[i]) || 97 <= s[i] as u32 <= 102 || 65 <= s[i] as u32 <= 70);
        }
    }
    if crate::git::refs::hex_oid(s) {
        assert forall|i: int| 0 <= i < s.len() implies digit(#[trigger] s[i]) || 97 <= s[i] as u32
            <= 102 || 65 <= s[i] as u32 <= 70 by {
            assert(text::is_hex_digit(s[i]));
        }
    }
}

/// Making letters small changes the capitals alone, each into its own small
/// letter.
pub proof fn law_letters_are_made_small(s: Seq<char>, i: int)
    requires
        0 <= i < s.len(),
    ensures
        text::lower(s).len() == s.len(),
        capital(s[i]) ==> text::lower(s)[i] as u32 == s[i] as u32 + 32,
        !capital(s[i]) ==> text::lower(s)[i] == s[i],
{
}

// ---------------------------------------------------------------------------
// Parts of a text

/// A text stands in every text that is made around it.
pub proof fn law_part_is_found(a: Seq<char>, part: Seq<char>, b: Seq<char>)
    ensures
        text::occurs(a + part + b, part),
        text::has_prefix(part + b, part),
        text::has_suffix(a + part, part),
{
    let s = a + part + b;
    assert(s.subrange(a.len() as int, (a.len() + part.len()) as int) =~= part);
    assert(text::occurs_at(s, part, a.len() as int));
    assert((part + b).take(part.len() as int) =~= part);
    assert((a + part).skip(a.len() as int) =~= part);
}

/// A text that is found in another stands in it somewhere.
pub proof fn law_found_part_is_there(s: Seq<char>, part: Seq<char>)
    ensures
        text::occurs(s, part) ==> exists|a: Seq<char>, b: Seq<char>| s == #[trigger] (a + part + b),
        text::has_prefix(s, part) ==> exists|b: Seq<char>| s == #[trigger] (part + b),
        text::has_suffix(s, part) ==> exists|a: Seq<char>| s == #[trigger] (a + part),
{
    if text::occurs(s, part) {
        let i = choose|i: int| #[trigger] text::occurs_at(s, part, i);
        let a = s.take(i);
        let b = s.skip(i + part.len());
        assert(s =~= a + part + b);
    }
    if text::has_prefix(s, part) {
        assert(s =~= part + s.skip(part.len() as int));
    }
    if text::has_suffix(s, part) {
        assert(s =~= s.take(s.len() - part.len()) + part);
    }
}

// ---------------------------------------------------------------------------
// Words and lines

/// White space in front of a text makes no word.
pub proof fn law_words_skip_blanks(gap: Seq<char>, s: Seq<char>)
    requires
        all_blank(gap),
    ensures
        text::words(gap + s) == text::words(s),
    decreases gap.len(),
{
    if gap.len() == 0 {
        assert(gap + s =~= s);
    } else {
        law_white_space_is_blank(gap[0]);
        assert(blank(gap[0]));
        assert((gap + s)[0] == gap[0]);
        assert((gap + s).drop_first() =~= gap.drop_first() + s);
        law_words_skip_blanks(gap.drop_first(), s);
    }
}

/// A word ends at the first white space after it.
pub proof fn law_word_ends_at_blank(word: Seq<char>, gap: char, s: Seq<char>)
    requires
        word.len() > 0,
        forall|i: int| 0 <= i < word.len() ==> !blank(#[trigger] word[i]),
        blank(gap),
    ensures
        text::words(word) == seq![word],
        text::words(word + seq![gap] + s) == seq![word] + text::words(s),
{
    let all = word + seq![gap] + s;
    let n = word.len() as int;
    assert forall|i: int| 0 <= i < n implies !text::is_space(#[trigger] word[i]) by {
        law_white_space_is_blank(word[i]);
    }
    law_white_space_is_blank(gap);
    crate::laws::requests::lemma_words_one(word);
    text::lemma_word_len(all);
    assert(all[n] == gap);
    assert(text::word_len(all) == n) by {
        let k = text::word_len(all) as int;
        if k < n {
            assert(text::is_space(all[k]));
            assert(all[k] == word[k]);
        }
        if k > n {
            assert(!text::is_space(all[n]));
        }
    }
    assert(all.take(n) =~= word);
    assert(all[0] == word[0]);
    let tail = all.skip(n);
    assert(tail =~= seq![gap] + s);
    assert(tail[0] == gap);
    assert(tail.drop_first() =~= s);
    assert(text::words(tail) == text::words(s));
    assert(!text::is_space(all[0]));
}

/// A line ends at its line feed, and a carriage return before that does not
/// belong to it.
pub proof fn law_line_ends(a: Seq<char>, s: Seq<char>)
    requires
        !a.contains('\n'),
    ensures
        a.len() > 0 ==> text::lines(a) == seq![a],
        (a.len() > 0 ==> a.last() != '\r') ==> text::lines(a + seq!['\n'] + s) == seq![a]
            + text::lines(s),
        text::lines(a + seq!['\r', '\n'] + s) == seq![a] + text::lines(s),
        text::lines(Seq::empty()) == Seq::<Seq<char>>::empty(),
{
    let n = a.len() as int;
    assert forall|j: int| 0 <= j < n implies a[j] != '\n' by {
        assert(a.contains(a[j]));
    }
    text::lemma_until_is(a, '\n', n);
    let one = a + seq!['\n'] + s;
    assert(forall|j: int| 0 <= j < n ==> one[j] == a[j]);
    assert(one[n] == '\n');
    text::lemma_until_is(one, '\n', n);
    assert(one.take(n) =~= a);
    assert(one.skip(n + 1) =~= s);
    let two = a + seq!['\r', '\n'] + s;
    assert(forall|j: int| 0 <= j < n ==> two[j] == a[j]);
    assert(two[n] == '\r' && two[n + 1] == '\n');
    text::lemma_until_is(two, '\n', n + 1);
    assert(two.take(n + 1) =~= a.push('\r'));
    assert(a.push('\r').drop_last() =~= a);
    assert(two.skip(n + 2) =~= s);
}

// ---------------------------------------------------------------------------
// Ends

proof fn lemma_trim_start(s: Seq<char>)
    ensures
        exists|a: Seq<char>| all_blank(a) && s == #[trigger] (a + text::trim_start(s, Class::Space)),
        text::trim_start(s, Class::Space).len() > 0 ==> !blank(
            text::trim_start(s, Class::Space)[0],
        ),
    decreases s.len(),
{
    let t = text::trim_start(s, Class::Space);
    if s.len() > 0 {
        law_white_space_is_blank(s[0]);
        if text::is_space(s[0]) {
            lemma_trim_start(s.drop_first());
            let a = choose|a: Seq<char>| all_blank(a) && s.drop_first() == #[trigger] (a + t);
            let b = seq![s[0]] + a;
            assert forall|i: int| 0 <= i < b.len() implies blank(#[trigger] b[i]) by {
                if i > 0 {
                    assert(b[i] == a[i - 1]);
                }
            }
            assert(s =~= seq![s[0]] + s.drop_first());
            assert(b + t =~= seq![s[0]] + (a + t));
            assert(s == b + t);
        } else {
            let none: Seq<char> = Seq::empty();
            assert(s =~= none + t);
        }
    } else {
        let none: Seq<char> = Seq::empty();
        assert(s =~= none + t);
    }
}

proof fn lemma_trim_end(s: Seq<char>)
    ensures
        exists|b: Seq<char>| all_blank(b) && s == #[trigger] (text::trim_end(s, Class::Space) + b),
        text::trim_end(s, Class::Space).len() > 0 ==> !blank(
            text::trim_end(s, Class::Space).last(),
        ) && text::trim_end(s, Class::Space)[0] == s[0],
    decreases s.len(),
{
    let t = text::trim_end(s, Class::Space);
    if s.len() > 0 {
        law_white_space_is_blank(s.last());
        if text::is_space(s.last()) {
            lemma_trim_end(s.drop_last());
            let b = choose|b: Seq<char>| all_blank(b) && s.drop_last() == #[trigger] (t + b);
            let c = b.push(s.last());
            assert forall|i: int| 0 <= i < c.len() implies blank(#[trigger] c[i]) by {
                if i < b.len() {
                    assert(c[i] == b[i]);
                }
            }
            assert(s =~= s.drop_last().push(s.last()));
            assert(t + c =~= (t + b).push(s.last()));
            assert(s == t + c);
        } else {
            let none: Seq<char> = Seq::empty();
            assert(s =~= t + none);
        }
    } else {
        let none: Seq<char> = Seq::empty();
        assert(s =~= t + none);
    }
}

/// Trimming takes off white space at both ends, all of it and nothing else.
pub proof fn law_trimming_takes_off_blanks(s: Seq<char>)
    ensures
        exists|a: Seq<char>, b: Seq<char>|
            all_blank(a) && all_blank(b) && s == #[trigger] (a + text::trim(s, Class::Space) + b),
        text::trim(s, Class::Space).len() > 0 ==> !blank(text::trim(s, Class::Space)[0]) && !blank(
            text::trim(s, Class::Space).last(),
        ),
{
    let t = text::trim_start(s, Class::Space);
    let u = text::trim(s, Class::Space);
    lemma_trim_start(s);
    lemma_trim_end(t);
    let a = choose|a: Seq<char>| all_blank(a) && s == #[trigger] (a + t);
    let b = choose|b: Seq<char>| all_blank(b) && t == #[trigger] (u + b);
    assert(s =~= a + u + b);
}

/// A text without white space at its ends is what is left of it with white space
/// around it.
pub proof fn law_blanks_around_are_taken_off(a: Seq<char>, s: Seq<char>, b: Seq<char>)
    requires
        all_blank(a),
        all_blank(b),
        s.len() > 0 ==> !blank(s[0]) && !blank(s.last()),
    ensures
        text::trim(a + s + b, Class::Space) == s,
{
    lemma_start_off(a, s + b);
    assert(a + s + b =~= a + (s + b));
    if s.len() > 0 {
        law_white_space_is_blank(s[0]);
        law_white_space_is_blank(s.last());
        assert((s + b)[0] == s[0]);
        assert(text::trim_start(s + b, Class::Space) == s + b);
        lemma_end_off(s, b);
    } else {
        let none: Seq<char> = Seq::empty();
        lemma_start_off(b, none);
        assert(s + b =~= b + none);
        assert(text::trim_start(none, Class::Space) == none);
        assert(text::trim_end(none, Class::Space) == none);
        assert(s =~= none);
    }
}

proof fn lemma_start_off(a: Seq<char>, s: Seq<char>)
    requires
        all_blank(a),
    ensures
        text::trim_start(a + s, Class::Space) == text::trim_start(s, Class::Space),
    decreases a.len(),
{
    if a.len() == 0 {
        assert(a + s =~= s);
    } else {
        law_white_space_is_blank(a[0]);
        assert(blank(a[0]));
        assert((a + s)[0] == a[0]);
        assert((a + s).drop_first() =~= a.drop_first() + s);
        lemma_start_off(a.drop_first(), s);
    }
}

proof fn lemma_end_off(s: Seq<char>, b: Seq<char>)
    requires
        all_blank(b),
        s.len() > 0,
        !text::is_space(s.last()),
    ensures
        text::trim_end(s + b, Class::Space) == s,
    decreases b.len(),
{
    if b.len() == 0 {
        assert(s + b =~= s);
    } else {
        law_white_space_is_blank(b.last());
        assert(blank(b[b.len() - 1]));
        assert((s + b).last() == b.last());
        assert((s + b).drop_last() =~= s + b.drop_last());
        lemma_end_off(s, b.drop_last());
    }
}

// ---------------------------------------------------------------------------
// Order

/// Names are put in order by the first character in which they differ; one that
/// another goes on from comes before it.
pub proof fn law_first_difference_decides(
    start: Seq<char>,
    c: char,
    x: Seq<char>,
    d: char,
    y: Seq<char>,
)
    ensures
        text::before(start, start + seq![c] + x),
        (c as u32) < (d as u32) ==> text::before(start + seq![c] + x, start + seq![d] + y),
    decreases start.len(),
{
    let a = start + seq![c] + x;
    let b = start + seq![d] + y;
    if start.len() > 0 {
        law_first_difference_decides(start.drop_first(), c, x, d, y);
        assert(a[0] == start[0] && b[0] == start[0]);
        assert(a.drop_first() =~= start.drop_first() + seq![c] + x);
        assert(b.drop_first() =~= start.drop_first() + seq![d] + y);
    } else {
        assert(a[0] == c && b[0] == d);
    }
}

}
