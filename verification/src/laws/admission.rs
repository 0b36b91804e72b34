//! What is let in: ordinary names, revisions, paths, hosts and addresses are
//! accepted, and nothing else is.

use vstd::prelude::*;
use vstd::utf8::*;
use crate::app::parts;
use crate::laws::{lists, pages, texts};
use crate::security::{self, Alphabet};
use crate::text::{self, Class};
use crate::{config, html};

verus! {

/// A letter or a digit.
pub open spec fn plain(c: char) -> bool {
    texts::small(c) || texts::capital(c) || texts::digit(c)
}

/// True when two dots follow one another.
pub open spec fn double_dot(s: Seq<char>) -> bool {
    exists|i: int| 0 <= i < s.len() - 1 && #[trigger] s[i] == '.' && s[i + 1] == '.'
}

proof fn lemma_double_dot(s: Seq<char>)
    ensures
        double_dot(s) <==> text::occurs(s, ".."@),
{
    reveal_strlit("..");
    if double_dot(s) {
        let i = choose|i: int| 0 <= i < s.len() - 1 && #[trigger] s[i] == '.' && s[i + 1] == '.';
        assert(s.subrange(i, i + 2) =~= ".."@);
        assert(text::occurs_at(s, ".."@, i));
    }
    if text::occurs(s, ".."@) {
        let i = choose|i: int| #[trigger] text::occurs_at(s, ".."@, i);
        assert(s.subrange(i, i + 2)[0] == s[i]);
        assert(s.subrange(i, i + 2)[1] == s[i + 1]);
        assert(s[i] == '.');
    }
}

// ---------------------------------------------------------------------------
// Revisions

/// An ordinary revision: letters, digits, slashes, dots, underscores and hyphens,
/// at most 128, with no hyphen in front and no two dots together.
pub open spec fn ordinary_rev(rev: Seq<char>) -> bool {
    &&& 0 < rev.len() <= 128
    &&& rev[0] != '-'
    &&& !double_dot(rev)
    &&& forall|i: int|
        0 <= i < rev.len() ==> plain(#[trigger] rev[i]) || "/._-"@.contains(rev[i])
}

/// Every ordinary revision is accepted, and no other.
pub proof fn law_ordinary_revisions_are_accepted(rev: Seq<char>)
    ensures
        security::git_rev_ok(rev) <==> ordinary_rev(rev),
{
    reveal_strlit("/._-");
    lemma_double_dot(rev);
    let few = "/._-"@;
    assert(few[0] == '/' && few[1] == '.' && few[2] == '_' && few[3] == '-');
    if security::git_rev_ok(rev) {
        assert forall|i: int| 0 <= i < rev.len() implies plain(#[trigger] rev[i]) || few.contains(
            rev[i],
        ) by {
            assert(security::belongs(Alphabet::Revision, rev[i]));
        }
        lemma_length(rev);
    }
    if ordinary_rev(rev) {
        assert forall|i: int| 0 <= i < rev.len() implies security::belongs(
            Alphabet::Revision,
            #[trigger] rev[i],
        ) by {
            assert(plain(rev[i]) || few.contains(rev[i]));
        }
        lemma_length(rev);
    }
}

proof fn lemma_length(s: Seq<char>)
    requires
        forall|i: int| 0 <= i < s.len() ==> plain(#[trigger] s[i]) || "/._-"@.contains(s[i]),
    ensures
        encode_utf8(s).len() == s.len(),
{
    reveal_strlit("/._-");
    assert forall|i: int| 0 <= i < s.len() implies (#[trigger] s[i] as u32) < 0x80 by {
        assert(plain(s[i]) || "/._-"@.contains(s[i]));
    }
    pages::lemma_ascii(s);
}

// ---------------------------------------------------------------------------
// Paths

/// An ordinary name in a path: not empty, neither the directory itself nor its
/// parent, and without slashes, backslashes, colons and control characters.
pub open spec fn ordinary_part(name: Seq<char>) -> bool {
    &&& name.len() > 0
    &&& name != "."@
    &&& name != ".."@
    &&& !name.contains('/')
    &&& !name.contains('\\')
    &&& !name.contains(':')
    &&& !pages::controls(name)
}

/// Every path of ordinary names is accepted.
pub proof fn law_ordinary_paths_are_accepted(names: Seq<Seq<char>>)
    requires
        forall|i: int| 0 <= i < names.len() ==> ordinary_part(#[trigger] names[i]),
    ensures
        security::git_path_ok(text::join(names, "/"@)),
{
    reveal_strlit("/");
    assert("/"@ =~= seq!['/']);
    let path = text::join(names, "/"@);
    if names.len() == 0 {
        assert(path =~= Seq::empty());
    } else {
        assert forall|i: int| 0 <= i < names.len() implies !(#[trigger] names[i]).contains('/') by {
            assert(ordinary_part(names[i]));
        }
        lists::law_join_then_split(names, '/');
        assert(security::no_dots(path)) by {
            assert forall|i: int| 0 <= i < text::split(path, '/').len() implies !security::is_dots(
                #[trigger] text::split(path, '/')[i],
            ) by {
                assert(ordinary_part(names[i]));
            }
        }
        lemma_joined(names);
        pages::lemma_controls(path);
        assert(!pages::controls(path)) by {
            if pages::controls(path) {
                let i = choose|i: int| 0 <= i < path.len() && pages::unseen(#[trigger] path[i]);
            }
        }
        assert forall|i: int| 0 <= i < path.len() implies path[i] != '\\' && path[i] != ':'
            && path[i] != '\0' by {
            assert(!pages::unseen(path[i]));
        }
    }
}

proof fn lemma_joined(names: Seq<Seq<char>>)
    requires
        forall|i: int| 0 <= i < names.len() ==> ordinary_part(#[trigger] names[i]),
    ensures
        forall|i: int|
            0 <= i < text::join(names, "/"@).len() ==> !pages::unseen(
                #[trigger] text::join(names, "/"@)[i],
            ) && text::join(names, "/"@)[i] != '\\' && text::join(names, "/"@)[i] != ':',
    decreases names.len(),
{
    reveal_strlit("/");
    let path = text::join(names, "/"@);
    if names.len() > 0 {
        let rest = names.drop_last();
        let last = names.last();
        assert forall|i: int| 0 <= i < rest.len() implies ordinary_part(#[trigger] rest[i]) by {
            assert(rest[i] == names[i]);
        }
        lemma_joined(rest);
        assert(ordinary_part(names[names.len() - 1]));
        let start = text::join(rest, "/"@);
        assert forall|i: int| 0 <= i < last.len() implies !pages::unseen(#[trigger] last[i])
            && last[i] != '\\' && last[i] != ':' by {
            assert(last.contains(last[i]));
        }
        if names.len() == 1 {
            assert(names =~= seq![last]);
            reveal_with_fuel(text::join, 2);
            assert(path =~= last);
        } else {
            assert(path == start + "/"@ + last);
            assert forall|i: int| 0 <= i < path.len() implies !pages::unseen(#[trigger] path[i])
                && path[i] != '\\' && path[i] != ':' by {
                if i < start.len() {
                    assert(path[i] == start[i]);
                } else if i == start.len() {
                    assert(path[i] == '/');
                } else {
                    assert(path[i] == last[i - start.len() - 1]);
                }
            }
        }
    }
}

/// A path is refused when one of its names is not ordinary.
pub proof fn law_other_paths_are_refused(names: Seq<Seq<char>>, k: int)
    requires
        forall|i: int| 0 <= i < names.len() ==> !(#[trigger] names[i]).contains('/'),
        0 <= k < names.len(),
        !ordinary_part(names[k]),
        text::join(names, "/"@).len() > 0,
    ensures
        !security::git_path_ok(text::join(names, "/"@)),
{
    reveal_strlit("/");
    assert("/"@ =~= seq!['/']);
    let path = text::join(names, "/"@);
    lists::law_join_then_split(names, '/');
    assert(text::split(path, '/')[k] == names[k]);
    pages::lemma_controls(path);
    if security::git_path_ok(path) {
        assert(!security::is_dots(text::split(path, '/')[k]));
        lemma_in_join(names, k);
        let bad = names[k];
        if pages::controls(bad) {
            let i = choose|i: int| 0 <= i < bad.len() && pages::unseen(#[trigger] bad[i]);
            assert(path.contains(bad[i]));
            let j = choose|j: int| 0 <= j < path.len() && path[j] == bad[i];
            assert(pages::unseen(path[j]));
        } else if bad.contains('\\') {
            let i = choose|i: int| 0 <= i < bad.len() && bad[i] == '\\';
            assert(path.contains(bad[i]));
        } else {
            let i = choose|i: int| 0 <= i < bad.len() && bad[i] == ':';
            assert(path.contains(bad[i]));
        }
    }
}

proof fn lemma_in_join(names: Seq<Seq<char>>, k: int)
    requires
        0 <= k < names.len(),
    ensures
        forall|i: int|
            0 <= i < names[k].len() ==> text::join(names, "/"@).contains(#[trigger] names[k][i]),
    decreases names.len(),
{
    let path = text::join(names, "/"@);
    let rest = names.drop_last();
    let start = text::join(rest, "/"@);
    assert forall|i: int| 0 <= i < names[k].len() implies path.contains(#[trigger] names[k][i]) by {
        if names.len() == 1 {
            assert(names =~= seq![names[0]]);
            reveal_with_fuel(text::join, 2);
            assert(path =~= names[0]);
            assert(path[i] == names[k][i]);
        } else if k == names.len() - 1 {
            let n = start.len() + "/"@.len();
            assert(path[n + i] == names[k][i]);
        } else {
            lemma_in_join(rest, k);
            assert(rest[k] == names[k]);
            assert(start.contains(rest[k][i]));
            let j = choose|j: int| 0 <= j < start.len() && start[j] == rest[k][i];
            assert(path[j] == start[j]);
        }
    }
}

// ---------------------------------------------------------------------------
// Repository names

/// An ordinary name of a repository: not empty, not a single dot, without slashes,
/// backslashes, control characters and two dots together.
pub open spec fn ordinary_name(name: Seq<char>) -> bool {
    &&& name.len() > 0
    &&& name != "."@
    &&& !double_dot(name)
    &&& !name.contains('/')
    &&& !name.contains('\\')
    &&& !pages::controls(name)
}

/// Every ordinary name is accepted for a repository, and no other.
pub proof fn law_ordinary_names_are_accepted(name: Seq<char>)
    ensures
        security::repo_name_ok(name) <==> ordinary_name(name),
{
    lemma_double_dot(name);
    pages::lemma_controls(name);
}

// ---------------------------------------------------------------------------
// Files for a clone

/// True for hexadecimal digits.
pub open spec fn hex_digits(s: Seq<char>) -> bool {
    forall|i: int|
        0 <= i < s.len() ==> texts::digit(#[trigger] s[i]) || 97 <= s[i] as u32 <= 102 || 65
            <= s[i] as u32 <= 70
}

/// The file of every loose object may be asked for.
pub proof fn law_loose_objects_may_be_cloned(a: Seq<char>, b: Seq<char>)
    requires
        a.len() == 2,
        b.len() == 38,
        hex_digits(a),
        hex_digits(b),
    ensures
        security::clone_path_ok("objects/"@ + a + "/"@ + b),
{
    reveal_strlit("objects");
    reveal_strlit("objects/");
    reveal_strlit("/");
    reveal_strlit(".");
    reveal_strlit("..");
    let path = "objects/"@ + a + "/"@ + b;
    let first = "objects"@;
    assert forall|i: int| 0 <= i < a.len() implies text::is_hex_digit(#[trigger] a[i]) by {
        assert(texts::digit(a[i]) || 97 <= a[i] as u32 <= 102 || 65 <= a[i] as u32 <= 70);
    }
    assert forall|i: int| 0 <= i < b.len() implies text::is_hex_digit(#[trigger] b[i]) by {
        assert(texts::digit(b[i]) || 97 <= b[i] as u32 <= 102 || 65 <= b[i] as u32 <= 70);
    }
    lemma_three_parts(first, a, b);
    assert(path =~= first + seq!['/'] + (a + seq!['/'] + b));
    assert forall|i: int| 0 <= i < path.len() implies plain(#[trigger] path[i]) || path[i] == '-'
        || path[i] == '.' || path[i] == '/' by {
        if 8 <= i < 10 {
            assert(path[i] == a[i - 8]);
        } else if i > 10 {
            assert(path[i] == b[i - 11]);
        }
    }
    lemma_clone_chars(path);
    assert(text::is_hex_digit(a[0]));
    assert(a[0] != '.');
    assert(!security::is_dots(a) && !security::is_dots(b) && !security::is_dots(first));
    assert(security::made_of(a, Alphabet::Hex) && security::made_of(b, Alphabet::Hex));
}

/// The file of every pack, and of its index, may be asked for.
pub proof fn law_packs_may_be_cloned(stem: Seq<char>, end: Seq<char>)
    requires
        end == ".pack"@ || end == ".idx"@,
        forall|i: int|
            0 <= i < stem.len() ==> plain(#[trigger] stem[i]) || stem[i] == '-' || stem[i] == '.',
    ensures
        security::clone_path_ok("objects/pack/pack-"@ + stem + end),
{
    reveal_strlit("objects");
    reveal_strlit("pack");
    reveal_strlit("pack-");
    reveal_strlit(".pack");
    reveal_strlit(".idx");
    reveal_strlit("objects/pack/pack-");
    reveal_strlit(".");
    reveal_strlit("..");
    let path = "objects/pack/pack-"@ + stem + end;
    let name = "pack-"@ + stem + end;
    assert forall|i: int| 0 <= i < name.len() implies security::belongs(
        Alphabet::PackFile,
        #[trigger] name[i],
    ) && name[i] != '/' by {
        if 5 <= i < 5 + stem.len() {
            assert(name[i] == stem[i - 5]);
            assert(plain(stem[i - 5]) || stem[i - 5] == '-' || stem[i - 5] == '.');
        }
    }
    assert(name.take(5) =~= "pack-"@);
    assert(name.skip(name.len() - end.len()) =~= end);
    lemma_three_parts("objects"@, "pack"@, name);
    assert(path =~= "objects"@ + seq!['/'] + ("pack"@ + seq!['/'] + name));
    lemma_clone_chars(path);
}

/// Nothing but loose objects, packs and their indexes may be asked for.
pub proof fn law_nothing_else_may_be_cloned(path: Seq<char>)
    requires
        security::clone_path_ok(path),
    ensures
        (exists|a: Seq<char>, b: Seq<char>|
            a.len() == 2 && b.len() == 38 && hex_digits(a) && hex_digits(b) && path
                == #[trigger] ("objects/"@ + a + "/"@ + b)) || (exists|stem: Seq<char>|
            (starts_like_pack(stem) && path == #[trigger] ("objects/pack/"@ + stem))),
{
    reveal_strlit("objects");
    reveal_strlit("pack");
    reveal_strlit("objects/");
    reveal_strlit("objects/pack/");
    reveal_strlit("/");
    assert("/"@ =~= seq!['/']);
    let all = text::split(path, '/');
    lists::law_split_then_join(path, '/');
    let a = all[1];
    let b = all[2];
    assert(all =~= seq![all[0], a, b]);
    assert(all.drop_last() =~= seq![all[0], a]);
    assert(seq![all[0], a].drop_last() =~= seq![all[0]]);
    assert(seq![all[0]].drop_last() =~= Seq::empty());
    reveal_with_fuel(text::join, 4);
    assert(path =~= "objects/"@ + a + "/"@ + b);
    if security::loose_object_path(all) {
        assert forall|i: int| 0 <= i < a.len() implies texts::digit(#[trigger] a[i]) || 97
            <= a[i] as u32 <= 102 || 65 <= a[i] as u32 <= 70 by {
            assert(security::belongs(Alphabet::Hex, a[i]));
        }
        assert forall|i: int| 0 <= i < b.len() implies texts::digit(#[trigger] b[i]) || 97
            <= b[i] as u32 <= 102 || 65 <= b[i] as u32 <= 70 by {
            assert(security::belongs(Alphabet::Hex, b[i]));
        }
        assert(hex_digits(a) && hex_digits(b));
    } else {
        assert(path =~= "objects/pack/"@ + b);
        assert forall|i: int| 0 <= i < b.len() implies plain(#[trigger] b[i]) || b[i] == '-' || b[i]
            == '.' by {
            assert(security::belongs(Alphabet::PackFile, b[i]));
        }
        lemma_pack_name(b);
        assert(starts_like_pack(b));
    }
}

/// True for the name of a pack or of its index.
pub open spec fn starts_like_pack(name: Seq<char>) -> bool {
    &&& starts(name, "pack-"@)
    &&& ends(name, ".pack"@) || ends(name, ".idx"@)
    &&& forall|i: int|
        0 <= i < name.len() ==> plain(#[trigger] name[i]) || name[i] == '-' || name[i] == '.'
}

/// True when a text ends with another.
pub open spec fn ends(s: Seq<char>, p: Seq<char>) -> bool {
    exists|rest: Seq<char>| s == #[trigger] (rest + p)
}

proof fn lemma_pack_name(name: Seq<char>)
    requires
        text::has_prefix(name, "pack-"@),
        text::has_suffix(name, ".pack"@) || text::has_suffix(name, ".idx"@),
    ensures
        starts(name, "pack-"@),
        ends(name, ".pack"@) || ends(name, ".idx"@),
{
    assert(name =~= "pack-"@ + name.skip("pack-"@.len() as int));
    if text::has_suffix(name, ".pack"@) {
        assert(name =~= name.take(name.len() - ".pack"@.len()) + ".pack"@);
    } else {
        assert(name =~= name.take(name.len() - ".idx"@.len()) + ".idx"@);
    }
}

proof fn lemma_three_parts(a: Seq<char>, b: Seq<char>, c: Seq<char>)
    requires
        forall|i: int| 0 <= i < a.len() ==> a[i] != '/',
        forall|i: int| 0 <= i < b.len() ==> b[i] != '/',
        forall|i: int| 0 <= i < c.len() ==> c[i] != '/',
    ensures
        text::split(a + seq!['/'] + (b + seq!['/'] + c), '/') == seq![a, b, c],
{
    text::lemma_split_one(c, '/');
    text::lemma_split_cons(b, c, '/');
    text::lemma_split_cons(a, b + seq!['/'] + c, '/');
    assert(seq![a] + (seq![b] + seq![c]) =~= seq![a, b, c]);
}

proof fn lemma_clone_chars(path: Seq<char>)
    requires
        forall|i: int|
            0 <= i < path.len() ==> plain(#[trigger] path[i]) || path[i] == '-' || path[i] == '.'
                || path[i] == '/',
    ensures
        !security::has_control(path),
        !path.contains('\\'),
        !path.contains('\0'),
        !path.contains(':'),
{
    assert forall|i: int| 0 <= i < path.len() implies !text::is_control(#[trigger] path[i])
        && path[i] != '\\' && path[i] != '\0' && path[i] != ':' by {
        assert(plain(path[i]) || path[i] == '-' || path[i] == '.' || path[i] == '/');
    }
}

// ---------------------------------------------------------------------------
// Hosts and addresses

/// An ordinary host: letters, digits, dots, hyphens, colons and square brackets,
/// at most 255.
pub open spec fn ordinary_host(host: Seq<char>) -> bool {
    &&& 0 < host.len() <= 255
    &&& forall|i: int| 0 <= i < host.len() ==> plain(#[trigger] host[i]) || ".-:[]"@.contains(host[i])
}

/// Every ordinary host is accepted, and no other.
pub proof fn law_ordinary_hosts_are_accepted(host: Seq<char>)
    ensures
        security::host_ok(host) <==> ordinary_host(host),
{
    reveal_strlit(".-:[]");
    let few = ".-:[]"@;
    assert(few[0] == '.' && few[1] == '-' && few[2] == ':' && few[3] == '[' && few[4] == ']');
    if security::host_ok(host) {
        assert forall|i: int| 0 <= i < host.len() implies plain(#[trigger] host[i]) || few.contains(
            host[i],
        ) by {
            assert(security::belongs(Alphabet::Host, host[i]));
        }
        lemma_host_length(host);
    }
    if ordinary_host(host) {
        assert forall|i: int| 0 <= i < host.len() implies security::belongs(
            Alphabet::Host,
            #[trigger] host[i],
        ) by {
            assert(plain(host[i]) || few.contains(host[i]));
        }
        lemma_host_length(host);
    }
}

proof fn lemma_host_length(s: Seq<char>)
    requires
        forall|i: int| 0 <= i < s.len() ==> plain(#[trigger] s[i]) || ".-:[]"@.contains(s[i]),
    ensures
        encode_utf8(s).len() == s.len(),
{
    reveal_strlit(".-:[]");
    assert forall|i: int| 0 <= i < s.len() implies (#[trigger] s[i] as u32) < 0x80 by {
        assert(plain(s[i]) || ".-:[]"@.contains(s[i]));
    }
    pages::lemma_ascii(s);
}

/// Where a repository can be cloned from: without a public base, the host that the
/// request names, if it is an ordinary one.
pub proof fn law_clone_command_names_the_host(host: Seq<char>, name: Seq<char>)
    requires
        ordinary_host(host),
    ensures
        parts::clone_command(None, Some(host), name) == "git clone http://"@ + host + "/repo/"@
            + html::path_encoded(name),
{
    law_ordinary_hosts_are_accepted(host);
    assert(parts::clone_command(None, Some(host), name) =~= "git clone http://"@ + host
        + "/repo/"@ + html::path_encoded(name));
}

/// A public base takes precedence over the host; slashes at its end do not count.
pub proof fn law_clone_command_names_the_public_base(
    scheme: Seq<char>,
    rest: Seq<char>,
    slashes: Seq<char>,
    host: Option<Seq<char>>,
    name: Seq<char>,
)
    requires
        scheme == "https://"@ || scheme == "http://"@,
        rest.len() > 0,
        rest.last() != '/',
        forall|i: int| 0 <= i < slashes.len() ==> slashes[i] == '/',
        !pages::controls(rest),
        !rest.contains(' '),
        encode_utf8(scheme + rest + "/repo/"@ + html::path_encoded(name)).len() <= 512,
    ensures
        parts::clone_command(Some(scheme + rest + slashes), host, name) == "git clone "@ + scheme
            + rest + "/repo/"@ + html::path_encoded(name),
{
    reveal_strlit("https://");
    reveal_strlit("http://");
    reveal_strlit("/repo/");
    let base = scheme + rest;
    assert(base.last() == rest.last());
    lemma_slashes_off(base, slashes);
    assert(scheme + rest + slashes =~= base + slashes);
    let encoded = html::path_encoded(name);
    let url = base + ("/repo/"@ + encoded);
    assert(url =~= scheme + rest + "/repo/"@ + encoded);
    assert(url.take(scheme.len() as int) =~= scheme);
    assert forall|i: int| 0 <= i < url.len() implies !text::is_control(#[trigger] url[i]) && url[i]
        != ' ' by {
        if i < scheme.len() {
            assert(url[i] == scheme[i]);
        } else if i < base.len() {
            assert(url[i] == rest[i - scheme.len()]);
            assert(rest.contains(rest[i - scheme.len()]));
            pages::lemma_unseen(rest[i - scheme.len()]);
        } else if i < base.len() + 6 {
            assert(url[i] == "/repo/"@[i - base.len()]);
        } else {
            assert(url[i] == encoded[i - base.len() - 6]);
            crate::laws::urls::law_encoded_is_plain(name, i - base.len() - 6);
        }
    }
    let command = parts::clone_command(Some(base + slashes), host, name);
    assert(command =~= "git clone "@ + scheme + rest + "/repo/"@ + encoded);
}

proof fn lemma_slashes_off(base: Seq<char>, slashes: Seq<char>)
    requires
        base.len() > 0,
        base.last() != '/',
        forall|i: int| 0 <= i < slashes.len() ==> slashes[i] == '/',
    ensures
        text::trim_end(base + slashes, Class::Only('/')) == base,
    decreases slashes.len(),
{
    if slashes.len() == 0 {
        assert(base + slashes =~= base);
    } else {
        assert((base + slashes).last() == '/');
        assert((base + slashes).drop_last() =~= base + slashes.drop_last());
        lemma_slashes_off(base, slashes.drop_last());
    }
}

/// Without a public base and an ordinary host there is no clone command.
pub proof fn law_no_clone_command_without_address(host: Option<Seq<char>>, name: Seq<char>)
    requires
        host matches Some(h) ==> !ordinary_host(h),
    ensures
        parts::clone_command(None, host, name) == "clone URL not configured"@,
{
    match host {
        Some(h) => law_ordinary_hosts_are_accepted(h),
        None => {},
    }
}

/// True when a text starts with another.
pub open spec fn starts(s: Seq<char>, p: Seq<char>) -> bool {
    exists|rest: Seq<char>| s == #[trigger] (p + rest)
}

/// A public base that makes no ordinary address gives no clone command: an address
/// starts with its scheme, is not longer than 512 bytes, and holds neither spaces
/// nor control characters.
pub proof fn law_odd_public_base_is_refused(
    base: Seq<char>,
    slashes: Seq<char>,
    host: Option<Seq<char>>,
    name: Seq<char>,
)
    requires
        base.len() > 0,
        base.last() != '/',
        forall|i: int| 0 <= i < slashes.len() ==> slashes[i] == '/',
        ({
            let url = base + ("/repo/"@ + html::path_encoded(name));
            ||| !starts(url, "https://"@) && !starts(url, "http://"@)
            ||| encode_utf8(url).len() > 512
            ||| url.contains(' ')
            ||| pages::controls(url)
        }),
    ensures
        parts::clone_command(Some(base + slashes), host, name) == "clone URL not configured"@,
{
    let url = base + ("/repo/"@ + html::path_encoded(name));
    lemma_slashes_off(base, slashes);
    pages::lemma_controls(url);
    if text::has_prefix(url, "https://"@) {
        assert(url =~= "https://"@ + url.skip("https://"@.len() as int));
    }
    if text::has_prefix(url, "http://"@) {
        assert(url =~= "http://"@ + url.skip("http://"@.len() as int));
    }
}

/// A public base counts unless it is blank.
pub proof fn law_blank_base_is_none(base: Seq<char>)
    ensures
        config::base_of(Some(base)) == (if texts::all_blank(base) {
            None
        } else {
            Some(base)
        }),
        config::base_of(None) is None,
{
    let inner = text::trim(base, Class::Space);
    let none: Seq<char> = Seq::empty();
    texts::law_trimming_takes_off_blanks(base);
    if texts::all_blank(base) {
        texts::law_blanks_around_are_taken_off(base, none, none);
        assert(base + none + none =~= base);
    } else if inner.len() == 0 {
        let (a, b) = choose|a: Seq<char>, b: Seq<char>|
            texts::all_blank(a) && texts::all_blank(b) && base == #[trigger] (a + inner + b);
        assert forall|i: int| 0 <= i < base.len() implies texts::blank(#[trigger] base[i]) by {
            if i < a.len() {
                assert(base[i] == a[i]);
            } else {
                assert(base[i] == b[i - a.len()]);
            }
        }
    }
}

}
