//! HTML: what comes from a repository or a request stays text.

use vstd::prelude::*;
use crate::html;

verus! {

/// A character that no escape holds is not in an escaped text.
proof fn lemma_never_escaped_to(s: Seq<char>, escape: spec_fn(char) -> Seq<char>, bad: char)
    requires
        forall|c: char| !(#[trigger] escape(c)).contains(bad),
    ensures
        !html::escaped(s, escape).contains(bad),
    decreases s.len(),
{
    if s.len() > 0 {
        lemma_never_escaped_to(s.drop_last(), escape, bad);
        let start = html::escaped(s.drop_last(), escape);
        let end = escape(s.last());
        let all = html::escaped(s, escape);
        assert forall|i: int| 0 <= i < all.len() implies all[i] != bad by {
            if i < start.len() {
                assert(all[i] == start[i]);
                assert(start.contains(start[i]));
            } else {
                assert(all[i] == end[i - start.len()]);
                assert(end.contains(end[i - start.len()]));
            }
        }
    }
}

/// What is escaped for a text node holds no character that starts or ends a tag.
pub proof fn law_text_holds_no_tags(s: Seq<char>)
    ensures
        !html::escaped_text(s).contains('<'),
        !html::escaped_text(s).contains('>'),
{
    reveal_strlit("&amp;");
    reveal_strlit("&lt;");
    reveal_strlit("&gt;");
    let escape = |c: char| html::text_escape(c);
    lemma_never_escaped_to(s, escape, '<');
    lemma_never_escaped_to(s, escape, '>');
}

/// What is escaped for an attribute holds neither tags nor quotes, so that it
/// cannot leave the attribute.
pub proof fn law_attr_holds_no_quotes(s: Seq<char>)
    ensures
        !html::escaped_attr(s).contains('<'),
        !html::escaped_attr(s).contains('>'),
        !html::escaped_attr(s).contains('"'),
        !html::escaped_attr(s).contains('\''),
{
    reveal_strlit("&amp;");
    reveal_strlit("&lt;");
    reveal_strlit("&gt;");
    reveal_strlit("&quot;");
    reveal_strlit("&#x27;");
    let escape = |c: char| html::attr_escape(c);
    lemma_never_escaped_to(s, escape, '<');
    lemma_never_escaped_to(s, escape, '>');
    lemma_never_escaped_to(s, escape, '"');
    lemma_never_escaped_to(s, escape, '\'');
}

/// Escaping from the first character on.
proof fn lemma_escaped_first(s: Seq<char>, escape: spec_fn(char) -> Seq<char>)
    requires
        s.len() > 0,
    ensures
        html::escaped(s, escape) == escape(s[0]) + html::escaped(s.drop_first(), escape),
    decreases s.len(),
{
    let first = escape(s[0]);
    if s.len() == 1 {
        assert(s.drop_last() =~= Seq::empty());
        assert(s.drop_first() =~= Seq::empty());
        assert(html::escaped(s.drop_last(), escape) =~= Seq::empty());
        assert(html::escaped(s, escape) =~= first);
        assert(first + html::escaped(s.drop_first(), escape) =~= first);
    } else {
        lemma_escaped_first(s.drop_last(), escape);
        assert(s.drop_last().drop_first() =~= s.drop_first().drop_last());
        assert(html::escaped(s, escape) =~= first + (html::escaped(
            s.drop_first().drop_last(),
            escape,
        ) + escape(s.last())));
    }
}

/// True when two texts that start with escapes and are the same start with the
/// escape of one character.
pub open spec fn is_told(escape: spec_fn(char) -> Seq<char>, c: char, d: char) -> bool {
    &&& escape(c).len() > 0
    &&& forall|x: Seq<char>, y: Seq<char>| #[trigger]
        (escape(c) + x) == #[trigger] (escape(d) + y) ==> c == d
}

/// Where the first character can be told from an escaped text, so can all.
proof fn lemma_told_apart(a: Seq<char>, b: Seq<char>, escape: spec_fn(char) -> Seq<char>)
    requires
        html::escaped(a, escape) == html::escaped(b, escape),
        forall|c: char, d: char| #[trigger] is_told(escape, c, d),
    ensures
        a == b,
    decreases a.len(),
{
    if a.len() > 0 {
        lemma_escaped_first(a, escape);
        assert(is_told(escape, a[0], a[0]));
    }
    if b.len() > 0 {
        lemma_escaped_first(b, escape);
        assert(is_told(escape, b[0], b[0]));
    }
    if a.len() > 0 && b.len() > 0 {
        let x = html::escaped(a.drop_first(), escape);
        let y = html::escaped(b.drop_first(), escape);
        assert(is_told(escape, a[0], b[0]));
        assert(escape(a[0]) + x == escape(b[0]) + y);
        let n = escape(a[0]).len() as int;
        assert((escape(a[0]) + x).skip(n) =~= x);
        assert((escape(b[0]) + y).skip(n) =~= y);
        lemma_told_apart(a.drop_first(), b.drop_first(), escape);
        assert(a =~= seq![a[0]] + a.drop_first());
        assert(b =~= seq![b[0]] + b.drop_first());
    } else {
        if a.len() > 0 {
            assert(html::escaped(b, escape).len() == 0);
        }
        if b.len() > 0 {
            assert(html::escaped(a, escape).len() == 0);
        }
        assert(a =~= b);
    }
}

/// Two starts of one text have their first characters in common, and their second
/// ones where both have two.
proof fn lemma_first_two(p: Seq<char>, x: Seq<char>, q: Seq<char>, y: Seq<char>)
    requires
        p.len() > 0,
        q.len() > 0,
        p + x == q + y,
    ensures
        p[0] == q[0],
        p.len() > 1 && q.len() > 1 ==> p[1] == q[1],
{
    let s = p + x;
    assert(s[0] == p[0] && s[0] == q[0]);
    if p.len() > 1 && q.len() > 1 {
        assert(s[1] == p[1] && s[1] == q[1]);
    }
}

/// No two texts are escaped alike: a page shows what it was given.
pub proof fn law_text_is_told_apart(a: Seq<char>, b: Seq<char>)
    requires
        html::escaped_text(a) == html::escaped_text(b),
    ensures
        a == b,
{
    reveal_strlit("&amp;");
    reveal_strlit("&lt;");
    reveal_strlit("&gt;");
    let escape = |c: char| html::text_escape(c);
    assert forall|c: char, d: char| #[trigger] is_told(escape, c, d) by {
        assert forall|x: Seq<char>, y: Seq<char>| #[trigger]
            (escape(c) + x) == #[trigger] (escape(d) + y) implies c == d by {
            lemma_first_two(escape(c), x, escape(d), y);
        }
    }
    lemma_told_apart(a, b, escape);
}

/// No two texts are escaped alike in an attribute.
pub proof fn law_attr_is_told_apart(a: Seq<char>, b: Seq<char>)
    requires
        html::escaped_attr(a) == html::escaped_attr(b),
    ensures
        a == b,
{
    reveal_strlit("&amp;");
    reveal_strlit("&lt;");
    reveal_strlit("&gt;");
    reveal_strlit("&quot;");
    reveal_strlit("&#x27;");
    let escape = |c: char| html::attr_escape(c);
    assert forall|c: char, d: char| #[trigger] is_told(escape, c, d) by {
        assert forall|x: Seq<char>, y: Seq<char>| #[trigger]
            (escape(c) + x) == #[trigger] (escape(d) + y) implies c == d by {
            lemma_first_two(escape(c), x, escape(d), y);
        }
    }
    lemma_told_apart(a, b, escape);
}

/// Escaping for a text node changes `&`, `<` and `>` into their names, and leaves
/// every other character as it is.
pub proof fn law_text_is_escaped_char_by_char(s: Seq<char>, c: char)
    ensures
        html::escaped_text(Seq::empty()) == Seq::<char>::empty(),
        html::escaped_text(s.push(c)) == html::escaped_text(s) + (if c == '&' {
            "&amp;"@
        } else if c == '<' {
            "&lt;"@
        } else if c == '>' {
            "&gt;"@
        } else {
            seq![c]
        }),
{
    assert(s.push(c).drop_last() =~= s);
}

/// Escaping for an attribute changes quotes too.
pub proof fn law_attr_is_escaped_char_by_char(s: Seq<char>, c: char)
    ensures
        html::escaped_attr(Seq::empty()) == Seq::<char>::empty(),
        html::escaped_attr(s.push(c)) == html::escaped_attr(s) + (if c == '&' {
            "&amp;"@
        } else if c == '<' {
            "&lt;"@
        } else if c == '>' {
            "&gt;"@
        } else if c == '"' {
            "&quot;"@
        } else if c == '\'' {
            "&#x27;"@
        } else {
            seq![c]
        }),
{
    assert(s.push(c).drop_last() =~= s);
}

}
