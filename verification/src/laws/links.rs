//! Links: what a page links to is what a request for the link is given.

use vstd::prelude::*;
use vstd::utf8::*;
use crate::app::parts;
use crate::app::route::{self, RouteView};
use crate::laws::{texts, urls};
use crate::security::{self, Alphabet};
use crate::{html, http, text};

verus! {

/// True for a character that stands for itself in the path of a URL.
pub open spec fn plain_char(c: char) -> bool {
    text::is_alphanumeric(c) || c == '-' || c == '_' || c == '.' || c == '~' || c == '/'
}

/// True when every character stands for itself.
pub open spec fn plain_text(s: Seq<char>) -> bool {
    forall|i: int| 0 <= i < s.len() ==> plain_char(#[trigger] s[i])
}

/// Escaping bytes for a URL part by part.
proof fn lemma_escaped_append(a: Seq<u8>, b: Seq<u8>, encode_slash: bool)
    ensures
        html::url_escaped(a + b, encode_slash) == html::url_escaped(a, encode_slash)
            + html::url_escaped(b, encode_slash),
    decreases b.len(),
{
    if b.len() == 0 {
        assert(a + b =~= a);
        assert(html::url_escaped(b, encode_slash) =~= Seq::empty());
        assert(html::url_escaped(a, encode_slash) + html::url_escaped(b, encode_slash)
            =~= html::url_escaped(a, encode_slash));
    } else {
        lemma_escaped_append(a, b.drop_last(), encode_slash);
        assert((a + b).drop_last() =~= a + b.drop_last());
        assert(html::url_escaped(a + b, encode_slash) =~= html::url_escaped(a, encode_slash)
            + html::url_escaped(b, encode_slash));
    }
}

/// Encoding for the path of a URL part by part.
proof fn lemma_path_append(a: Seq<char>, b: Seq<char>)
    ensures
        html::path_encoded(a + b) == html::path_encoded(a) + html::path_encoded(b),
{
    text::lemma_encode_append(a, b);
    lemma_escaped_append(encode_utf8(a), encode_utf8(b), false);
}

/// A plain text stands for itself in the path of a URL.
proof fn lemma_plain_encoded(s: Seq<char>)
    requires
        plain_text(s),
    ensures
        html::path_encoded(s) == s,
        http::url_decoded(s) == s,
    decreases s.len(),
{
    lemma_plain_is_kept(s);
    urls::law_path_round_trip(s);
}

proof fn lemma_plain_is_kept(s: Seq<char>)
    requires
        plain_text(s),
    ensures
        html::path_encoded(s) == s,
    decreases s.len(),
{
    if s.len() == 0 {
        assert(html::path_encoded(s) =~= s);
    } else {
        let c = s.last();
        assert(plain_char(c));
        let b = c as u8;
        assert(b as char == c) by {
            char_u32_cast(c, c as u32);
        }
        assert(b < 0x80);
        lemma_plain_is_kept(s.drop_last());
        lemma_path_append(s.drop_last(), seq![c]);
        text::lemma_encode_ascii(b);
        assert(s.drop_last() + seq![c] =~= s);
        assert(seq![b].drop_last() =~= Seq::empty());
        assert(html::url_escaped(Seq::empty(), false) =~= Seq::empty());
        assert(html::url_escaped(seq![b], false) =~= seq![c]);
    }
}

/// A text without characters that HTML escapes is left as it is.
pub proof fn lemma_attr_kept(s: Seq<char>)
    requires
        forall|i: int| 0 <= i < s.len() ==> urls::url_char(#[trigger] s[i]),
    ensures
        html::escaped_attr(s) == s,
    decreases s.len(),
{
    if s.len() == 0 {
        assert(html::escaped_attr(s) =~= s);
    } else {
        lemma_attr_kept(s.drop_last());
        assert(urls::url_char(s[s.len() - 1]));
        assert(s.drop_last() + seq![s.last()] =~= s);
    }
}

/// An object id needs no escape in an attribute.
pub proof fn lemma_id_kept(id: Seq<char>)
    requires
        texts::is_id(id),
    ensures
        html::escaped_attr(id) == id,
{
    assert forall|i: int| 0 <= i < id.len() implies urls::url_char(#[trigger] id[i]) by {
        assert(texts::digit(id[i]) || 97 <= id[i] as u32 <= 102 || 65 <= id[i] as u32 <= 70);
    }
    lemma_attr_kept(id);
}

/// What is encoded for a URL needs no escape in an attribute.
pub proof fn law_encoded_needs_no_escape(s: Seq<char>)
    ensures
        html::escaped_attr(html::path_encoded(s)) == html::path_encoded(s),
{
    assert forall|i: int| 0 <= i < html::path_encoded(s).len() implies urls::url_char(
        #[trigger] html::path_encoded(s)[i],
    ) by {
        urls::law_encoded_is_plain(s, i);
    }
    lemma_attr_kept(html::path_encoded(s));
}

/// A safe revision needs neither encoding nor escape.
pub proof fn law_revision_needs_no_escape(rev: Seq<char>)
    requires
        security::git_rev_ok(rev),
    ensures
        html::escaped_attr(rev) == rev,
        html::path_encoded(rev) == rev,
        http::url_decoded(rev) == rev,
{
    assert forall|i: int| 0 <= i < rev.len() implies plain_char(#[trigger] rev[i])
        && urls::url_char(rev[i]) by {
        assert(security::belongs(Alphabet::Revision, rev[i]));
    }
    lemma_attr_kept(rev);
    lemma_plain_encoded(rev);
}

/// The path `/repo/name/page` leads to that page of that repository.
proof fn lemma_route(name: Seq<char>, page: Seq<char>)
    requires
        security::repo_name_ok(name),
        page.len() > 0,
        !page.contains('/'),
    ensures
        route::route_of("/repo/"@ + name + "/"@ + page) == (RouteView::Repository {
            name,
            rest: seq![page],
        }),
{
    reveal_strlit("/repo/");
    reveal_strlit("repo");
    reveal_strlit("/");
    let none: Seq<char> = Seq::empty();
    let path = "/repo/"@ + name + "/"@ + page;
    let three = name + seq!['/'] + page;
    let two = "repo"@ + seq!['/'] + three;
    let one = none + seq!['/'] + two;
    assert(path =~= one);
    assert(!"repo"@.contains('/')) by {
        assert("repo"@[0] == 'r' && "repo"@[1] == 'e' && "repo"@[2] == 'p' && "repo"@[3] == 'o');
    }
    text::lemma_split_one(page, '/');
    text::lemma_split_cons(name, page, '/');
    text::lemma_split_cons("repo"@, three, '/');
    text::lemma_split_cons(none, two, '/');
    let parts = seq![none, "repo"@, name, page];
    assert(text::split(path, '/') =~= parts);
    reveal_with_fuel(route::nonempty, 5);
    assert(parts.drop_last() =~= seq![none, "repo"@, name]);
    assert(seq![none, "repo"@, name].drop_last() =~= seq![none, "repo"@]);
    assert(seq![none, "repo"@].drop_last() =~= seq![none]);
    assert(seq![none].drop_last() =~= Seq::empty());
    assert(route::nonempty(Seq::<Seq<char>>::empty()) =~= Seq::empty());
    assert(route::nonempty(seq![none]) =~= Seq::empty());
    assert(route::nonempty(seq![none, "repo"@]) =~= seq!["repo"@]);
    assert(route::nonempty(seq![none, "repo"@, name]) =~= seq!["repo"@, name]);
    assert(route::parts_of(path) =~= seq!["repo"@, name, page]);
    assert(seq!["repo"@, name, page].skip(2) =~= seq![page]);
}

/// A link to a page of a repository leads, once it has been read out of its
/// attribute and decoded, to that page of that repository.
pub proof fn law_page_link_leads_to_page(name: Seq<char>, page: Seq<char>)
    requires
        security::repo_name_ok(name),
        plain_text(page),
        page.len() > 0,
        !page.contains('/'),
    ensures
        html::escaped_attr(parts::base_path(name) + "/"@ + page) == parts::base_path(name) + "/"@
            + page,
        route::route_of(http::url_decoded(parts::base_path(name) + "/"@ + page)) == (
        RouteView::Repository { name, rest: seq![page] }),
{
    reveal_strlit("/repo/");
    reveal_strlit("/");
    let link = parts::base_path(name) + "/"@ + page;
    let path = "/repo/"@ + name + "/"@ + page;
    assert(plain_text("/repo/"@));
    assert(plain_text("/"@));
    lemma_plain_encoded("/repo/"@);
    lemma_plain_encoded("/"@);
    lemma_plain_encoded(page);
    lemma_path_append("/repo/"@ + name + "/"@, page);
    lemma_path_append("/repo/"@ + name, "/"@);
    lemma_path_append("/repo/"@, name);
    assert(html::path_encoded(path) == link);
    law_encoded_needs_no_escape(path);
    urls::law_path_round_trip(path);
    lemma_route(name, page);
}

/// The query `rev=..&path=..` that a tree's rows write.
pub open spec fn tree_query(rev: Seq<char>, child: Seq<char>) -> Seq<char> {
    "rev="@ + html::escaped_attr(rev) + "&path="@ + html::escaped_attr(html::path_encoded(child))
}

/// A text of URL characters holds no separator of a query.
pub proof fn lemma_no_separator(s: Seq<char>)
    requires
        forall|i: int| 0 <= i < s.len() ==> urls::url_char(#[trigger] s[i]),
    ensures
        !s.contains('&'),
        !s.contains('='),
        !s.contains('?'),
{
}

/// A part `key=value` of a query.
pub proof fn lemma_query_pair(part: Seq<char>, key: Seq<char>, value: Seq<char>)
    requires
        part == key + seq!['='] + value,
        !key.contains('='),
    ensures
        http::query_pair(part) == (http::url_decoded(key), http::url_decoded(value)),
{
    assert forall|j: int| 0 <= j < key.len() implies part[j] != '=' by {
        assert(part[j] == key[j]);
        assert(key.contains(key[j]));
    }
    assert(part[key.len() as int] == '=');
    text::lemma_until_is(part, '=', key.len() as int);
    assert(part.take(key.len() as int) =~= key);
    assert(part.skip(key.len() as int + 1) =~= value);
}

/// A row of a tree links to its own entry: the request that the link makes asks
/// for the revision shown and for the entry's path, whatever the path holds.
pub proof fn law_tree_link_asks_for_entry(rev: Seq<char>, child: Seq<char>)
    requires
        security::git_rev_ok(rev),
    ensures
        http::query_of(text::split(tree_query(rev, child), '&')) == Map::<
            Seq<char>,
            Seq<char>,
        >::empty().insert("rev"@, rev).insert("path"@, child),
{
    reveal_strlit("rev=");
    reveal_strlit("&path=");
    reveal_strlit("rev");
    reveal_strlit("path");
    law_revision_needs_no_escape(rev);
    law_encoded_needs_no_escape(child);
    let value = html::path_encoded(child);
    assert forall|i: int| 0 <= i < rev.len() implies urls::url_char(#[trigger] rev[i]) by {
        assert(security::belongs(Alphabet::Revision, rev[i]));
    }
    assert forall|i: int| 0 <= i < value.len() implies urls::url_char(#[trigger] value[i]) by {
        urls::law_encoded_is_plain(child, i);
    }
    lemma_no_separator(rev);
    lemma_no_separator(value);
    let one = "rev"@ + seq!['='] + rev;
    let two = "path"@ + seq!['='] + value;
    let query = tree_query(rev, child);
    assert(query =~= one + seq!['&'] + two);
    assert forall|i: int| 0 <= i < one.len() implies one[i] != '&' by {
        if i >= 4 {
            assert(one[i] == rev[i - 4]);
        }
    }
    assert forall|i: int| 0 <= i < two.len() implies two[i] != '&' by {
        if i >= 5 {
            assert(two[i] == value[i - 5]);
        }
    }
    text::lemma_split_one(two, '&');
    text::lemma_split_cons(one, two, '&');
    lemma_query_pair(one, "rev"@, rev);
    lemma_query_pair(two, "path"@, value);
    assert(plain_text("rev"@));
    assert(plain_text("path"@));
    lemma_plain_encoded("rev"@);
    lemma_plain_encoded("path"@);
    urls::law_path_round_trip(child);
    let parts = seq![one, two];
    assert(text::split(query, '&') =~= parts);
    reveal_with_fuel(http::query_of, 3);
    assert(parts.drop_last() =~= seq![one]);
    assert(seq![one].drop_last() =~= Seq::empty());
}

/// A link to a commit asks for that commit.
pub proof fn law_commit_link_asks_for_commit(id: Seq<char>)
    requires
        security::git_rev_ok(id),
    ensures
        http::query_of(text::split("id="@ + html::escaped_attr(id), '&')) == Map::<
            Seq<char>,
            Seq<char>,
        >::empty().insert("id"@, id),
{
    reveal_strlit("id=");
    reveal_strlit("id");
    law_revision_needs_no_escape(id);
    assert forall|i: int| 0 <= i < id.len() implies urls::url_char(#[trigger] id[i]) by {
        assert(security::belongs(Alphabet::Revision, id[i]));
    }
    lemma_no_separator(id);
    let one = "id"@ + seq!['='] + id;
    assert("id="@ + id =~= one);
    assert forall|i: int| 0 <= i < one.len() implies one[i] != '&' by {
        if i >= 3 {
            assert(one[i] == id[i - 3]);
        }
    }
    text::lemma_split_one(one, '&');
    lemma_query_pair(one, "id"@, id);
    assert(plain_text("id"@));
    lemma_plain_encoded("id"@);
    reveal_with_fuel(http::query_of, 2);
    assert(seq![one].drop_last() =~= Seq::empty());
}

}
