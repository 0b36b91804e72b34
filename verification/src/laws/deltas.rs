//! Reference deltas: the bound on how many are followed is never felt.
//!
//! The base of a reference delta is looked up by its id, so that nothing in a
//! pack keeps a chain of them from running in a circle. Reading stops after as
//! many as the packs have bytes. What is proved here is that every chain that
//! ends at all ends before that, and that the bound has no other effect.

use vstd::prelude::*;
use crate::git::bytes::ObjectError;
use crate::git::{object, pack};
use crate::numbers;
use crate::repo::{self, FileView, FilesView};

verus! {

/// Where the base id of the reference delta stands that the object at `offset`
/// builds on, by itself or over offset deltas.
pub open spec fn ref_place(data: Seq<u8>, offset: int, depth: nat) -> Option<int>
    decreases (39 - depth) as nat,
{
    if depth > 32 {
        None
    } else {
        match pack::pack_header(data, offset) {
            Err(_) => None,
            Ok((kind, _size, pos)) => if kind == 6 {
                match pack::ofs_base(data, offset, pos) {
                    Err(_) => None,
                    Ok((base, _next)) => ref_place(data, base, depth + 1),
                }
            } else if kind == 7 && pos + 20 <= data.len() {
                Some(pos)
            } else {
                None
            },
        }
    }
}

/// The pack, and the place in it, of the base id that an object builds on;
/// `None` when it needs no other object.
pub open spec fn base_place(files: FilesView, oid: Seq<char>) -> Option<(Seq<char>, int)> {
    match object::loose_object(files, oid) {
        Ok(_) => None,
        Err(_) => match object::locate(files.packs, 0, oid) {
            None => None,
            Some((name, offset)) => match repo::stored(files.packs, name) {
                None => None,
                Some(data) => if !object::is_pack(data) {
                    None
                } else {
                    match ref_place(data, offset as int, 0) {
                        None => None,
                        Some(pos) => Some((name, pos)),
                    }
                },
            },
        },
    }
}

/// The id that stands at a place.
pub open spec fn id_at(files: FilesView, place: (Seq<char>, int)) -> Seq<char> {
    match repo::stored(files.packs, place.0) {
        Some(data) => numbers::to_hex(data.subrange(place.1, place.1 + 20)),
        None => Seq::empty(),
    }
}

/// The object reached from `oid` over `k` reference deltas.
pub open spec fn reached(files: FilesView, oid: Seq<char>, k: nat) -> Option<Seq<char>>
    decreases k,
{
    if k == 0 {
        Some(oid)
    } else {
        match base_place(files, oid) {
            None => None,
            Some(place) => reached(files, id_at(files, place), (k - 1) as nat),
        }
    }
}

/// The chain of reference deltas from `oid` ends after at most `n` of them.
pub open spec fn ends_within(files: FilesView, oid: Seq<char>, n: nat) -> bool {
    reached(files, oid, n + 1) is None
}

/// What an object in a pack is, by what its base is.
proof fn lemma_pack_object(
    files: FilesView,
    data: Seq<u8>,
    offset: int,
    depth: nat,
    b: nat,
    c: nat,
)
    ensures
        ref_place(data, offset, depth) is None ==> object::pack_object(
            files,
            data,
            offset,
            depth,
            b,
        ) == object::pack_object(files, data, offset, depth, c),
        ref_place(data, offset, depth) is Some && b == 0 ==> object::pack_object(
            files,
            data,
            offset,
            depth,
            b,
        ) == Err::<object::ObjectView, ObjectError>(ObjectError::CyclicDelta),
        ref_place(data, offset, depth) matches Some(pos) ==> b > 0 ==> {
            let base = numbers::to_hex(data.subrange(pos, pos + 20));
            let with_b = object::object_within(files, base, (b - 1) as nat);
            let with_c = object::object_within(files, base, (c - 1) as nat);
            &&& c > 0 && with_b == with_c ==> object::pack_object(files, data, offset, depth, b)
                == object::pack_object(files, data, offset, depth, c)
            &&& with_b == Err::<object::ObjectView, ObjectError>(ObjectError::CyclicDelta)
                ==> object::pack_object(files, data, offset, depth, b) == Err::<
                object::ObjectView,
                ObjectError,
            >(ObjectError::CyclicDelta)
        },
    decreases (39 - depth) as nat,
{
    if depth <= 32 {
        match pack::pack_header(data, offset) {
            Err(_) => {},
            Ok((kind, _size, pos)) => {
                if kind == 6 {
                    match pack::ofs_base(data, offset, pos) {
                        Err(_) => {},
                        Ok((base, _next)) => {
                            lemma_pack_object(files, data, base, depth + 1, b, c);
                        },
                    }
                }
            },
        }
    }
}

/// The bound does not matter to a chain that ends below it.
pub proof fn law_bound_is_harmless(files: FilesView, oid: Seq<char>, b: nat, c: nat)
    requires
        ends_within(files, oid, b),
        b <= c,
    ensures
        object::object_within(files, oid, c) == object::object_within(files, oid, b),
    decreases b,
{
    match object::loose_object(files, oid) {
        Ok(_) => {},
        Err(_) => match object::locate(files.packs, 0, oid) {
            None => {},
            Some((name, offset)) => match repo::stored(files.packs, name) {
                None => {},
                Some(data) => {
                    lemma_pack_object(files, data, offset as int, 0, b, c);
                    if object::is_pack(data) && ref_place(data, offset as int, 0) is Some {
                        let place = base_place(files, oid)->0;
                        assert(reached(files, oid, b + 1) == reached(
                            files,
                            id_at(files, place),
                            b,
                        ));
                        if b > 0 {
                            law_bound_is_harmless(
                                files,
                                id_at(files, place),
                                (b - 1) as nat,
                                (c - 1) as nat,
                            );
                        }
                    }
                },
            },
        },
    }
}

/// A chain that does not end within the bound is reported as endless.
pub proof fn law_endless_chain_is_reported(files: FilesView, oid: Seq<char>, b: nat)
    requires
        !ends_within(files, oid, b),
    ensures
        object::object_within(files, oid, b) == Err::<object::ObjectView, ObjectError>(
            ObjectError::CyclicDelta,
        ),
    decreases b,
{
    let (name, offset) = object::locate(files.packs, 0, oid)->0;
    let data = repo::stored(files.packs, name)->0;
    let place = base_place(files, oid)->0;
    assert(reached(files, oid, b + 1) == reached(files, id_at(files, place), b));
    lemma_pack_object(files, data, offset as int, 0, b, b);
    if b > 0 {
        law_endless_chain_is_reported(files, id_at(files, place), (b - 1) as nat);
    }
}

// ---------------------------------------------------------------------------
// Every chain that ends, ends early

/// Every place in the files.
pub open spec fn places(files: Seq<FileView>) -> Set<(Seq<char>, int)>
    decreases files.len(),
{
    if files.len() == 0 {
        Set::empty()
    } else {
        places(files.drop_last()).union(file_places(files.last()))
    }
}

/// Every place in a file.
pub open spec fn file_places(file: FileView) -> Set<(Seq<char>, int)> {
    let n = match file.data {
        Some(d) => d.len() as int,
        None => 0,
    };
    vstd::set_lib::set_int_range(0, n).map(|p: int| (file.name, p))
}

/// There are no more places than bytes.
proof fn lemma_places_len(files: Seq<FileView>)
    ensures
        places(files).finite(),
        places(files).len() <= object::total_bytes(files),
    decreases files.len(),
{
    if files.len() > 0 {
        lemma_places_len(files.drop_last());
        let file = files.last();
        let n = match file.data {
            Some(d) => d.len() as int,
            None => 0,
        };
        let range = vstd::set_lib::set_int_range(0, n);
        vstd::set_lib::lemma_int_range(0, n);
        let f = |p: int| (file.name, p);
        range.lemma_map_finite(f);
        vstd::set_lib::lemma_map_size_bound(range, file_places(file), f);
        vstd::set_lib::lemma_len_union(places(files.drop_last()), file_places(file));
    }
}

/// A place in a stored file is a place in the files.
proof fn lemma_place_known(files: Seq<FileView>, name: Seq<char>, pos: int)
    requires
        repo::stored(files, name) matches Some(data) && 0 <= pos < data.len(),
    ensures
        places(files).contains((name, pos)),
    decreases files.len(),
{
    lemma_stored_index(files, name);
    let i = choose|i: int|
        0 <= i < files.len() && files[i].name == name && files[i].data == repo::stored(
            files,
            name,
        );
    lemma_place_at(files, i, pos);
}

proof fn lemma_stored_index(files: Seq<FileView>, name: Seq<char>)
    requires
        repo::stored(files, name) is Some,
    ensures
        exists|i: int|
            0 <= i < files.len() && (#[trigger] files[i]).name == name && files[i].data
                == repo::stored(files, name),
    decreases files.len(),
{
    if files[0].name != name {
        lemma_stored_index(files.drop_first(), name);
        let i = choose|i: int|
            0 <= i < files.drop_first().len() && (#[trigger] files.drop_first()[i]).name == name
                && files.drop_first()[i].data == repo::stored(files.drop_first(), name);
        assert(files[i + 1] == files.drop_first()[i]);
    }
}

proof fn lemma_place_at(files: Seq<FileView>, i: int, pos: int)
    requires
        0 <= i < files.len(),
        files[i].data matches Some(data) && 0 <= pos < data.len(),
    ensures
        places(files).contains((files[i].name, pos)),
    decreases files.len(),
{
    if i == files.len() - 1 {
        let file = files.last();
        let n = file.data->0.len() as int;
        assert(vstd::set_lib::set_int_range(0, n).contains(pos));
        assert(file_places(file).contains((file.name, pos)));
    } else {
        assert(files.drop_last()[i] == files[i]);
        lemma_place_at(files.drop_last(), i, pos);
    }
}

/// A base place lies in its pack.
proof fn lemma_base_place(files: FilesView, oid: Seq<char>)
    requires
        base_place(files, oid) is Some,
    ensures
        places(files.packs).contains(base_place(files, oid)->0),
{
    let (name, offset) = object::locate(files.packs, 0, oid)->0;
    let data = repo::stored(files.packs, name)->0;
    lemma_ref_place(data, offset as int, 0);
    let place = base_place(files, oid)->0;
    lemma_place_known(files.packs, name, place.1);
}

proof fn lemma_ref_place(data: Seq<u8>, offset: int, depth: nat)
    ensures
        ref_place(data, offset, depth) matches Some(pos) ==> 0 <= pos && pos + 20 <= data.len(),
    decreases (39 - depth) as nat,
{
    if depth <= 32 {
        match pack::pack_header(data, offset) {
            Err(_) => {},
            Ok((kind, _size, pos)) => {
                if kind == 6 {
                    match pack::ofs_base(data, offset, pos) {
                        Err(_) => {},
                        Ok((base, _next)) => lemma_ref_place(data, base, depth + 1),
                    }
                }
            },
        }
    }
}

/// Reaching over `j` deltas and then over `k` more is reaching over `j + k`.
proof fn lemma_reached_add(files: FilesView, oid: Seq<char>, j: nat, k: nat)
    ensures
        reached(files, oid, j + k) == (match reached(files, oid, j) {
            Some(x) => reached(files, x, k),
            None => None,
        }),
    decreases j,
{
    if j > 0 {
        match base_place(files, oid) {
            None => {},
            Some(place) => lemma_reached_add(files, id_at(files, place), (j - 1) as nat, k),
        }
    }
}

/// An object that builds on itself is reached over any number of deltas.
proof fn lemma_circle(files: FilesView, x: Seq<char>, d: nat, n: nat)
    requires
        d > 0,
        reached(files, x, d) == Some(x),
    ensures
        reached(files, x, n) is Some,
    decreases n,
{
    if n >= d {
        lemma_reached_add(files, x, d, (n - d) as nat);
        lemma_circle(files, x, d, (n - d) as nat);
    } else {
        lemma_reached_add(files, x, n, (d - n) as nat);
    }
}

/// The places visited over the first `n` deltas.
pub open spec fn trail(files: FilesView, oid: Seq<char>, n: nat) -> Seq<(Seq<char>, int)> {
    Seq::new(n, |k: int| base_place(files, reached(files, oid, k as nat)->0)->0)
}

/// A chain of reference deltas that ends at all ends within as many deltas as
/// the packs have bytes: the bound under which objects are read is never short.
pub proof fn law_bound_is_enough(files: FilesView, oid: Seq<char>, n: nat)
    requires
        ends_within(files, oid, n),
    ensures
        ends_within(files, oid, object::total_bytes(files.packs)),
{
    let total = object::total_bytes(files.packs);
    if !ends_within(files, oid, total) {
        let len = (total + 1) as nat;
        let visited = trail(files, oid, len);
        let known = places(files.packs);
        lemma_places_len(files.packs);
        assert forall|k: int| 0 <= k < len implies {
            &&& reached(files, oid, k as nat) is Some
            &&& base_place(files, reached(files, oid, k as nat)->0) is Some
            &&& known.contains(#[trigger] visited[k])
            &&& reached(files, oid, (k + 1) as nat) == Some(id_at(files, visited[k]))
        } by {
            lemma_reached_add(files, oid, k as nat, (len - k) as nat);
            let x = reached(files, oid, k as nat)->0;
            assert(reached(files, x, (len - k) as nat) is Some);
            lemma_base_place(files, x);
            lemma_reached_add(files, oid, k as nat, 1);
            reveal_with_fuel(reached, 2);
        }
        if visited.no_duplicates() {
            visited.unique_seq_to_set();
            assert(visited.to_set().subset_of(known));
            vstd::set_lib::lemma_len_subset(visited.to_set(), known);
            assert(false);
        }
        let (i, j) = choose|i: int, j: int|
            0 <= i < visited.len() && 0 <= j < visited.len() && i != j && visited[i] == visited[j];
        let (a, b) = if i < j {
            (i, j)
        } else {
            (j, i)
        };
        let x = id_at(files, visited[a]);
        assert(reached(files, oid, (a + 1) as nat) == Some(x));
        assert(reached(files, oid, (b + 1) as nat) == Some(x));
        lemma_reached_add(files, oid, (a + 1) as nat, (b - a) as nat);
        assert((a + 1) as nat + (b - a) as nat == (b + 1) as nat);
        lemma_reached_add(files, oid, (a + 1) as nat, (n + 1) as nat);
        lemma_circle(files, x, (b - a) as nat, (n + 1) as nat);
        lemma_reached_add(files, oid, (n + 1) as nat, (a + 1) as nat);
        assert(false);
    }
}

/// An object is read whatever the length of its chain of reference deltas, as
/// long as the chain ends: reading it is following the whole chain.
pub proof fn law_object_is_read_in_full(files: FilesView, oid: Seq<char>, n: nat, c: nat)
    requires
        ends_within(files, oid, n),
        n <= c,
    ensures
        object::object(files, oid) == object::object_within(files, oid, c),
{
    let total = object::total_bytes(files.packs);
    law_bound_is_enough(files, oid, n);
    if total <= c {
        law_bound_is_harmless(files, oid, total, c);
    } else {
        law_bound_is_harmless(files, oid, n, c);
        law_bound_is_harmless(files, oid, n, total);
    }
}

}
