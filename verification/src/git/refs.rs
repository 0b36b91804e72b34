//! Refs, from the files below `refs` and from `packed-refs`.

use vstd::prelude::*;
use crate::repo::{self, FilesView, RefFile, RefFileView, RepoFiles};
use crate::text::{self, chars_of, comes_before, same, split_lines, split_words, to_lower, trimmed, Class};

verus! {

/// A ref and the object that it names.
#[derive(Clone, Debug, Eq, PartialEq)]
pub struct RefInfo {
    /// Ref name such as `refs/heads/main`.
    pub name: String,
    /// Hex object id for the ref target.
    pub oid: String,
}

/// What a ref holds.
pub struct RefView {
    /// Ref name.
    pub name: Seq<char>,
    /// Object id.
    pub oid: Seq<char>,
}

impl View for RefInfo {
    type V = RefView;

    open spec fn view(&self) -> RefView {
        RefView { name: self.name@, oid: self.oid@ }
    }
}

/// What each ref holds.
pub open spec fn ref_views(v: Seq<RefInfo>) -> Seq<RefView> {
    v.map_values(|r: RefInfo| r@)
}

/// True for an object id: forty hexadecimal digits.
pub open spec fn hex_oid(s: Seq<char>) -> bool {
    s.len() == 40 && forall|i: int| 0 <= i < s.len() ==> text::is_hex_digit(#[trigger] s[i])
}

/// Tests for an object id.
pub fn is_hex_oid(value: &str) -> (r: bool)
    ensures
        r == hex_oid(value@),
{
    let v = chars_of(value);
    if v.len() != 40 {
        return false;
    }
    let mut i: usize = 0;
    while i < v.len()
        invariant
            v@ == value@,
            i <= v.len(),
            forall|j: int| 0 <= j < i ==> text::is_hex_digit(#[trigger] v@[j]),
        decreases v.len() - i,
    {
        if !text::hex_char(v[i]) {
            return false;
        }
        i = i + 1;
    }
    true
}

// ---------------------------------------------------------------------------
// Sorted lists of refs

/// The names come in order, each once.
pub open spec fn sorted(list: Seq<RefView>) -> bool {
    forall|i: int, j: int|
        0 <= i < j < list.len() ==> text::before(#[trigger] list[i].name, #[trigger] list[j].name)
}

/// Which object each name in the list stands for.
pub open spec fn ref_map(list: Seq<RefView>) -> Map<Seq<char>, Seq<char>>
    decreases list.len(),
{
    if list.len() == 0 {
        Map::empty()
    } else {
        ref_map(list.drop_last()).insert(list.last().name, list.last().oid)
    }
}

/// The sorted list of the refs in `m`.
pub open spec fn listing(m: Map<Seq<char>, Seq<char>>) -> Seq<RefView> {
    choose|list: Seq<RefView>| sorted(list) && ref_map(list) == m
}

/// A name is in the map exactly when it is in the list, with the object that
/// stands beside it.
pub proof fn lemma_ref_map(list: Seq<RefView>)
    requires
        sorted(list),
    ensures
        forall|i: int|
            0 <= i < list.len() ==> ref_map(list).contains_key(#[trigger] list[i].name)
                && ref_map(list)[list[i].name] == list[i].oid,
        forall|n: Seq<char>| #[trigger]
            ref_map(list).contains_key(n) ==> exists|i: int|
                0 <= i < list.len() && (#[trigger] list[i]).name == n,
    decreases list.len(),
{
    if list.len() > 0 {
        let rest = list.drop_last();
        assert(forall|i: int| 0 <= i < rest.len() ==> rest[i] == list[i]);
        lemma_ref_map(rest);
        assert forall|i: int| 0 <= i < list.len() implies ref_map(list).contains_key(
            #[trigger] list[i].name,
        ) && ref_map(list)[list[i].name] == list[i].oid by {
            if i < list.len() - 1 {
                assert(rest[i] == list[i]);
                assert(text::before(list[i].name, list[list.len() - 1].name));
                if list[i].name == list.last().name {
                    text::lemma_before_irreflexive(list[i].name);
                }
            }
        }
        assert forall|n: Seq<char>| #[trigger] ref_map(list).contains_key(n) implies exists|i: int|
            0 <= i < list.len() && (#[trigger] list[i]).name == n by {
            if n == list.last().name {
                assert(list[list.len() - 1].name == n);
            } else {
                assert(ref_map(rest).contains_key(n));
                let i = choose|i: int| 0 <= i < rest.len() && (#[trigger] rest[i]).name == n;
                assert(list[i].name == n);
            }
        }
    }
}

/// There is one sorted list for each map.
pub proof fn lemma_listing_unique(a: Seq<RefView>, b: Seq<RefView>)
    requires
        sorted(a),
        sorted(b),
        ref_map(a) == ref_map(b),
    ensures
        a == b,
    decreases a.len(),
{
    lemma_ref_map(a);
    lemma_ref_map(b);
    if a.len() == 0 {
        if b.len() > 0 {
            assert(ref_map(b).contains_key(b[0].name));
        }
        assert(a =~= b);
    } else {
        assert(ref_map(b).contains_key(a[a.len() - 1].name));
        let j = choose|j: int| 0 <= j < b.len() && (#[trigger] b[j]).name == a.last().name;
        assert(ref_map(a).contains_key(b[b.len() - 1].name));
        let i = choose|i: int| 0 <= i < a.len() && (#[trigger] a[i]).name == b.last().name;
        if j < b.len() - 1 {
            assert(text::before(b[j].name, b[b.len() - 1].name));
            if i < a.len() - 1 {
                assert(text::before(a[i].name, a[a.len() - 1].name));
                text::lemma_before_transitive(a.last().name, b.last().name, a.last().name);
            }
            text::lemma_before_irreflexive(a.last().name);
        }
        assert(a.last().name == b.last().name);
        let ra = a.drop_last();
        let rb = b.drop_last();
        assert(forall|k: int| 0 <= k < ra.len() ==> ra[k] == a[k]);
        assert(forall|k: int| 0 <= k < rb.len() ==> rb[k] == b[k]);
        lemma_ref_map(ra);
        lemma_ref_map(rb);
        assert(!ref_map(ra).contains_key(a.last().name)) by {
            if ref_map(ra).contains_key(a.last().name) {
                let k = choose|k: int| 0 <= k < ra.len() && (#[trigger] ra[k]).name == a.last().name;
                assert(text::before(a[k].name, a[a.len() - 1].name));
                text::lemma_before_irreflexive(a.last().name);
            }
        }
        assert(!ref_map(rb).contains_key(b.last().name)) by {
            if ref_map(rb).contains_key(b.last().name) {
                let k = choose|k: int| 0 <= k < rb.len() && (#[trigger] rb[k]).name == b.last().name;
                assert(text::before(b[k].name, b[b.len() - 1].name));
                text::lemma_before_irreflexive(b.last().name);
            }
        }
        assert(ref_map(ra) =~= ref_map(a).remove(a.last().name));
        assert(ref_map(rb) =~= ref_map(b).remove(b.last().name));
        lemma_listing_unique(ra, rb);
        assert(a.last().oid == b.last().oid) by {
            assert(ref_map(a)[a.last().name] == a.last().oid);
            assert(ref_map(b)[b.last().name] == b.last().oid);
        }
        assert(a =~= ra.push(a.last()));
        assert(b =~= rb.push(b.last()));
    }
}

/// A sorted list is the listing of its map.
pub proof fn lemma_listing(list: Seq<RefView>)
    requires
        sorted(list),
    ensures
        listing(ref_map(list)) == list,
{
    let m = ref_map(list);
    assert(sorted(list) && ref_map(list) == m);
    lemma_listing_unique(list, listing(m));
}

/// Put a ref into a sorted list. A name that is there already keeps its object
/// unless `replace` is set.
fn put_ref(list: &mut Vec<RefInfo>, name: String, oid: String, replace: bool)
    requires
        sorted(ref_views(old(list)@)),
    ensures
        sorted(ref_views(final(list)@)),
        ref_map(ref_views(final(list)@)) == (if ref_map(ref_views(old(list)@)).contains_key(name@)
            && !replace {
            ref_map(ref_views(old(list)@))
        } else {
            ref_map(ref_views(old(list)@)).insert(name@, oid@)
        }),
{
    let ghost a = ref_views(list@);
    proof {
        lemma_ref_map(a);
    }
    let mut i: usize = 0;
    while i < list.len() && comes_before(list[i].name.as_str(), name.as_str())
        invariant
            list@ == old(list)@,
            a == ref_views(list@),
            i <= list.len(),
            forall|j: int| 0 <= j < i ==> text::before(#[trigger] a[j].name, name@),
        decreases list.len() - i,
    {
        assert(a[i as int] == list@[i as int]@);
        i = i + 1;
    }
    if i < list.len() {
        assert(a[i as int] == list@[i as int]@);
        if same(list[i].name.as_str(), name.as_str()) {
            assert(ref_map(a).contains_key(a[i as int].name));
            if replace {
                let ghost x = RefInfo { name, oid };
                list.set(i, RefInfo { name, oid });
                proof {
                    let b = ref_views(list@);
                    assert(b =~= a.update(i as int, x@));
                    assert(forall|j: int| 0 <= j < b.len() ==> b[j].name == a[j].name);
                    assert(sorted(b));
                    lemma_ref_map(b);
                    lemma_map_update(a, b, i as int);
                }
            }
            return;
        }
    }
    let ghost x = RefInfo { name, oid };
    list.insert(i, RefInfo { name, oid });
    proof {
        let b = ref_views(list@);
        assert(b =~= a.insert(i as int, x@));
        lemma_map_insert(a, b, i as int, x@);
    }
}

/// Replacing the object beside a name replaces it in the map.
pub proof fn lemma_map_update(a: Seq<RefView>, b: Seq<RefView>, i: int)
    requires
        sorted(a),
        sorted(b),
        0 <= i < a.len(),
        b == a.update(i, b[i]),
        a[i].name == b[i].name,
    ensures
        ref_map(b) == ref_map(a).insert(b[i].name, b[i].oid),
{
    lemma_ref_map(a);
    lemma_ref_map(b);
    let m = ref_map(a).insert(b[i].name, b[i].oid);
    assert forall|n: Seq<char>|
        #![trigger ref_map(b).dom().contains(n)]
        #![trigger m.dom().contains(n)]
        ref_map(b).dom().contains(n) == m.dom().contains(n) && (ref_map(b).dom().contains(n)
            ==> ref_map(b)[n] == m[n]) by {
        if ref_map(b).contains_key(n) {
            let k = choose|k: int| 0 <= k < b.len() && (#[trigger] b[k]).name == n;
            assert(ref_map(b)[b[k].name] == b[k].oid);
            if k != i {
                assert(a[k] == b[k]);
                assert(ref_map(a).contains_key(a[k].name));
                if n == b[i].name {
                    if k < i {
                        assert(text::before(b[k].name, b[i].name));
                    } else {
                        assert(text::before(b[i].name, b[k].name));
                    }
                    text::lemma_before_irreflexive(n);
                }
            }
        }
        if ref_map(a).contains_key(n) {
            let k = choose|k: int| 0 <= k < a.len() && (#[trigger] a[k]).name == n;
            assert(b[k].name == n);
        }
    }
    assert(ref_map(b) =~= m);
}

/// Inserting a ref at its place keeps the list sorted and adds it to the map.
pub proof fn lemma_map_insert(a: Seq<RefView>, b: Seq<RefView>, i: int, x: RefView)
    requires
        sorted(a),
        0 <= i <= a.len(),
        b == a.insert(i, x),
        forall|j: int| 0 <= j < i ==> text::before(#[trigger] a[j].name, x.name),
        i < a.len() ==> !text::before(a[i].name, x.name) && a[i].name != x.name,
    ensures
        sorted(b),
        !ref_map(a).contains_key(x.name),
        ref_map(b) == ref_map(a).insert(x.name, x.oid),
{
    assert forall|j: int| i <= j < a.len() implies text::before(x.name, #[trigger] a[j].name) by {
        text::lemma_before_total(a[i].name, x.name);
        if j > i {
            assert(text::before(a[i].name, a[j].name));
            text::lemma_before_transitive(x.name, a[i].name, a[j].name);
        }
    }
    assert forall|j: int, k: int| 0 <= j < k < b.len() implies text::before(
        #[trigger] b[j].name,
        #[trigger] b[k].name,
    ) by {
        let aj = if j < i {
            j
        } else {
            j - 1
        };
        let ak = if k < i {
            k
        } else {
            k - 1
        };
        if j != i {
            assert(b[j] == a[aj]);
        }
        if k != i {
            assert(b[k] == a[ak]);
        }
        if j != i && k != i {
            assert(text::before(a[aj].name, a[ak].name));
        }
    }
    assert(sorted(b));
    lemma_ref_map(a);
    lemma_ref_map(b);
    assert forall|k: int| 0 <= k < a.len() implies (#[trigger] a[k]).name != x.name by {
        if k < i {
            assert(text::before(a[k].name, x.name));
        } else {
            assert(text::before(x.name, a[k].name));
        }
        text::lemma_before_irreflexive(x.name);
    }
    let m = ref_map(a).insert(x.name, x.oid);
    assert(b[i] == x);
    assert forall|n: Seq<char>|
        #![trigger ref_map(b).dom().contains(n)]
        #![trigger m.dom().contains(n)]
        ref_map(b).dom().contains(n) == m.dom().contains(n) && (ref_map(b).dom().contains(n)
            ==> ref_map(b)[n] == m[n]) by {
        if ref_map(b).contains_key(n) {
            let k = choose|k: int| 0 <= k < b.len() && (#[trigger] b[k]).name == n;
            assert(ref_map(b)[b[k].name] == b[k].oid);
            if k < i {
                assert(a[k] == b[k]);
                assert(ref_map(a).contains_key(a[k].name));
            } else if k > i {
                assert(a[k - 1] == b[k]);
                assert(ref_map(a).contains_key(a[k - 1].name));
            }
        }
        if ref_map(a).contains_key(n) {
            let k = choose|k: int| 0 <= k < a.len() && (#[trigger] a[k]).name == n;
            if k < i {
                assert(b[k].name == n);
            } else {
                assert(b[k + 1].name == n);
            }
        }
    }
    assert(ref_map(b) =~= m);
}

// ---------------------------------------------------------------------------
// Where refs come from

/// The name of the ref in the file at `path` below `refs`.
pub open spec fn ref_name(path: Seq<Seq<char>>) -> Seq<char>
    decreases path.len(),
{
    if path.len() == 0 {
        "refs"@
    } else {
        ref_name(path.drop_last()) + "/"@ + path.last()
    }
}

/// The refs in files: those whose text, without the space around it, is an
/// object id.
pub open spec fn loose_refs(files: Seq<RefFileView>) -> Map<Seq<char>, Seq<char>>
    decreases files.len(),
{
    if files.len() == 0 {
        Map::empty()
    } else {
        let rest = loose_refs(files.drop_last());
        let oid = text::trim(files.last().text, Class::Space);
        if hex_oid(oid) {
            rest.insert(ref_name(files.last().path), oid)
        } else {
            rest
        }
    }
}

/// The ref that a line of `packed-refs` holds: an object id and a name. Empty
/// lines, comments and peeled tags hold none.
pub open spec fn packed_ref(line: Seq<char>) -> Option<RefView> {
    let words = text::words(line);
    if line.len() == 0 || line[0] == '#' || line[0] == '^' {
        None
    } else if words.len() < 2 || !hex_oid(words[0]) {
        None
    } else {
        Some(RefView { name: words[1], oid: words[0] })
    }
}

/// The refs in `known`, and those of the lines whose names are new; of several
/// lines with one name the first counts.
pub open spec fn with_packed(
    known: Map<Seq<char>, Seq<char>>,
    lines: Seq<Seq<char>>,
) -> Map<Seq<char>, Seq<char>>
    decreases lines.len(),
{
    if lines.len() == 0 {
        known
    } else {
        let rest = with_packed(known, lines.drop_last());
        match packed_ref(lines.last()) {
            None => rest,
            Some(r) => if rest.contains_key(r.name) {
                rest
            } else {
                rest.insert(r.name, r.oid)
            },
        }
    }
}

/// The refs of a repository: a file takes precedence over `packed-refs`.
pub open spec fn all_refs(files: FilesView) -> Map<Seq<char>, Seq<char>> {
    let loose = loose_refs(files.refs);
    match files.packed_refs {
        None => loose,
        Some(t) => with_packed(loose, text::lines(t)),
    }
}

/// The name of the ref in a file.
fn ref_file_name(file: &RefFile) -> (r: String)
    ensures
        r@ == ref_name(file@.path),
{
    let ghost path = file@.path;
    let mut out: String = "refs".to_owned();
    let mut i: usize = 0;
    assert(path.take(0) =~= Seq::empty());
    while i < file.path.len()
        invariant
            path == text::views(file.path@),
            i <= file.path.len(),
            out@ == ref_name(path.take(i as int)),
        decreases file.path.len() - i,
    {
        proof {
            assert(path.take(i + 1).drop_last() =~= path.take(i as int));
            assert(path.take(i + 1).last() == file.path@[i as int]@);
        }
        out.append("/");
        out.append(file.path[i].as_str());
        i = i + 1;
    }
    assert(path.take(i as int) =~= path);
    out
}

/// Collect the refs in files.
fn read_loose_refs(files: &Vec<RefFile>, list: &mut Vec<RefInfo>)
    requires
        old(list)@.len() == 0,
    ensures
        sorted(ref_views(final(list)@)),
        ref_map(ref_views(final(list)@)) == loose_refs(repo::ref_file_views(files@)),
{
    let ghost all = repo::ref_file_views(files@);
    let mut i: usize = 0;
    while i < files.len()
        invariant
            all == repo::ref_file_views(files@),
            i <= files.len(),
            sorted(ref_views(list@)),
            ref_map(ref_views(list@)) == loose_refs(all.take(i as int)),
        decreases files.len() - i,
    {
        proof {
            assert(all.take(i + 1).drop_last() =~= all.take(i as int));
            assert(all.take(i + 1).last() == files@[i as int]@);
        }
        let oid = trimmed(files[i].text.as_str(), Class::Space);
        if is_hex_oid(oid.as_str()) {
            let name = ref_file_name(&files[i]);
            put_ref(list, name, oid, true);
        }
        i = i + 1;
    }
    assert(all.take(i as int) =~= all);
}

/// Read a line of `packed-refs`.
pub fn parse_packed_ref(line: &str) -> (r: Option<RefInfo>)
    ensures
        (match r {
            Some(x) => Some(x@),
            None => None,
        }) == packed_ref(line@),
{
    let v = chars_of(line);
    if v.len() == 0 || v[0] == '#' || v[0] == '^' {
        return None;
    }
    let words = split_words(line);
    assert(text::views(words@).len() == words@.len());
    if words.len() < 2 {
        return None;
    }
    assert(text::views(words@)[0] == words@[0]@);
    assert(text::views(words@)[1] == words@[1]@);
    if !is_hex_oid(words[0].as_str()) {
        return None;
    }
    Some(RefInfo { name: words[1].as_str().to_owned(), oid: words[0].as_str().to_owned() })
}

/// Add the refs of `packed-refs`.
fn read_packed_refs(packed: &str, list: &mut Vec<RefInfo>)
    requires
        sorted(ref_views(old(list)@)),
    ensures
        sorted(ref_views(final(list)@)),
        ref_map(ref_views(final(list)@)) == with_packed(
            ref_map(ref_views(old(list)@)),
            text::lines(packed@),
        ),
{
    let lines = split_lines(packed);
    let ghost all = text::views(lines@);
    let ghost known = ref_map(ref_views(list@));
    let mut i: usize = 0;
    while i < lines.len()
        invariant
            all == text::views(lines@),
            i <= lines.len(),
            sorted(ref_views(list@)),
            ref_map(ref_views(list@)) == with_packed(known, all.take(i as int)),
        decreases lines.len() - i,
    {
        proof {
            assert(all.take(i + 1).drop_last() =~= all.take(i as int));
            assert(all.take(i + 1).last() == lines@[i as int]@);
        }
        match parse_packed_ref(lines[i].as_str()) {
            Some(r) => put_ref(list, r.name, r.oid, false),
            None => {},
        }
        i = i + 1;
    }
    assert(all.take(i as int) =~= all);
}

/// The refs of a repository, in the order of their names.
pub fn list_refs(files: &RepoFiles) -> (r: Vec<RefInfo>)
    ensures
        sorted(ref_views(r@)),
        ref_map(ref_views(r@)) == all_refs(files@),
        ref_views(r@) == listing(all_refs(files@)),
{
    let mut list: Vec<RefInfo> = Vec::new();
    read_loose_refs(&files.refs, &mut list);
    match &files.packed_refs {
        Some(packed) => read_packed_refs(packed.as_str(), &mut list),
        None => {},
    }
    proof {
        lemma_listing(ref_views(list@));
    }
    list
}

/// The id of the object that a ref names, in small letters.
pub open spec fn ref_target(files: FilesView, name: Seq<char>) -> Option<Seq<char>> {
    if all_refs(files).contains_key(name) {
        Some(text::lower(all_refs(files)[name]))
    } else {
        None
    }
}

/// Find the object that a ref names.
pub fn resolve_ref(files: &RepoFiles, name: &str) -> (r: Option<String>)
    ensures
        (match r {
            Some(s) => Some(s@),
            None => None,
        }) == ref_target(files@, name@),
{
    let list = list_refs(files);
    let ghost all = ref_views(list@);
    proof {
        lemma_ref_map(all);
    }
    let mut i: usize = 0;
    while i < list.len()
        invariant
            all == ref_views(list@),
            i <= list.len(),
            forall|j: int| 0 <= j < i ==> (#[trigger] all[j]).name != name@,
            ref_map(all) == all_refs(files@),
            sorted(all),
        decreases list.len() - i,
    {
        assert(all[i as int] == list@[i as int]@);
        if same(list[i].name.as_str(), name) {
            proof {
                lemma_ref_map(all);
                assert(ref_map(all).contains_key(all[i as int].name));
            }
            return Some(to_lower(list[i].oid.as_str()));
        }
        i = i + 1;
    }
    None
}

}
