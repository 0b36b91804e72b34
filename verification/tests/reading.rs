use std::io::Write;

use flate2::write::ZlibEncoder;
use flate2::Compression;
use rsgit::git::bytes::ObjectError;
use rsgit::git::commit::{parse_commit_text, parse_signature, short_id};
use rsgit::git::idx::{hex_to_20, idx_lookup};
use rsgit::git::object::{
    inflate_from, parse_object_payload, read_loose_object, read_object, read_object_within, Kind,
};
use rsgit::git::pack::{parse_ofs_delta, parse_pack_header};
use rsgit::git::reader::{lookup_entry, lookup_tree_path, read_tree, resolve_rev};
use rsgit::git::refs::{is_hex_oid, parse_packed_ref};
use rsgit::git::tree::parse_tree;
use rsgit::git::{
    blob, branches, commit, description, head_bytes, info_refs, recent_commits, refs,
    search_commits, tree_entries,
};
use rsgit::repo::{RefFile, Repo, RepoFiles, StoredFile};

// ---------------------------------------------------------------------------
// Repositories in memory

fn zlib(data: &[u8]) -> Vec<u8> {
    let mut encoder = ZlibEncoder::new(Vec::new(), Compression::default());
    encoder.write_all(data).unwrap();
    encoder.finish().unwrap()
}

fn oid(byte: u8) -> String {
    format!("{byte:02x}").repeat(20)
}

fn raw_oid(byte: u8) -> Vec<u8> {
    vec![byte; 20]
}

fn no_files() -> RepoFiles {
    RepoFiles {
        description: None,
        head: None,
        refs: Vec::new(),
        packed_refs: None,
        loose: Vec::new(),
        packs: Vec::new(),
    }
}

fn file(name: &str, data: Vec<u8>) -> StoredFile {
    StoredFile {
        name: name.to_string(),
        data: Some(data),
    }
}

fn loose(byte: u8, kind: &str, body: &[u8]) -> StoredFile {
    let mut data = format!("{kind} {}\0", body.len()).into_bytes();
    data.extend_from_slice(body);
    file(&oid(byte), zlib(&data))
}

fn ref_file(path: &[&str], text: &str) -> RefFile {
    RefFile {
        path: path.iter().map(|part| part.to_string()).collect(),
        text: text.to_string(),
    }
}

fn tree_entry(mode: &str, name: &str, id: u8) -> Vec<u8> {
    let mut out = format!("{mode} {name}\0").into_bytes();
    out.extend_from_slice(&raw_oid(id));
    out
}

fn commit_text(tree: u8, parents: &[u8], author: &str, time: i64, message: &str) -> Vec<u8> {
    let mut out = format!("tree {}\n", oid(tree));
    for parent in parents {
        out.push_str(&format!("parent {}\n", oid(*parent)));
    }
    out.push_str(&format!("author {author} <a@b> {time} +0100\n"));
    out.push_str("committer C <c@d> 1 +0000\n");
    out.push_str(&format!("\n{message}"));
    out.into_bytes()
}

fn repo(files: RepoFiles) -> Repo {
    Repo::new("demo".to_string(), vec!["srv".to_string()], true, files)
}

/// Two commits on `main`, a directory, two files and a submodule.
fn sample() -> Repo {
    let mut files = no_files();
    files.head = Some(b"ref: refs/heads/main\n".to_vec());
    files.refs.push(ref_file(&["heads", "main"], &format!("{}\n", oid(2))));
    files.loose.push(loose(
        1,
        "commit",
        &commit_text(3, &[], "Ann", 100, "First step\n\nbody\n"),
    ));
    files.loose.push(loose(
        2,
        "commit",
        &commit_text(4, &[1], "Bob Lee", -5, "Second Step\n"),
    ));
    files.loose.push(loose(3, "tree", &tree_entry("100644", "a.txt", 5)));
    let mut root = tree_entry("100644", "a.txt", 6);
    root.extend_from_slice(&tree_entry("40000", "dir", 7));
    root.extend_from_slice(&tree_entry("160000", "sub", 8));
    files.loose.push(loose(4, "tree", &root));
    files.loose.push(loose(5, "blob", b"old"));
    files.loose.push(loose(6, "blob", b"new text"));
    files.loose.push(loose(7, "tree", &tree_entry("100755", "run", 9)));
    files.loose.push(loose(9, "blob", b"#!x"));
    repo(files)
}

// ---------------------------------------------------------------------------
// Ids

#[test]
fn validates_sha1_lengths() {
    assert!(is_hex_oid("0123456789012345678901234567890123456789"));
    assert!(!is_hex_oid("xyz"));
}

#[test]
fn ids_are_forty_hexadecimal_digits() {
    assert!(is_hex_oid("ABCDEFabcdef0123456789012345678901234567"));
    assert!(!is_hex_oid("g123456789012345678901234567890123456789"));
    assert!(!is_hex_oid("01234567890123456789012345678901234567890"));
}

#[test]
fn ids_are_read_as_bytes() {
    let id = hex_to_20("00ff10ABcdef0123456789012345678901234567").unwrap();
    assert_eq!(id[..6], [0x00, 0xff, 0x10, 0xab, 0xcd, 0xef]);
    assert_eq!(rsgit::numbers::bytes_to_hex(&id), "00ff10abcdef0123456789012345678901234567");
    assert!(matches!(hex_to_20("00"), Err(ObjectError::BadOid)));
    assert!(matches!(
        hex_to_20("zz00000000000000000000000000000000000000"),
        Err(ObjectError::BadHex)
    ));
    let signed = hex_to_20("+f00000000000000000000000000000000000000").unwrap();
    assert_eq!(signed[0], 0x0f);
}

#[test]
fn short_ids_have_eight_bytes() {
    assert_eq!(short_id("0123456789"), "01234567");
    assert_eq!(short_id("0123"), "0123");
    assert_eq!(short_id("0123456é"), "0123456é");
}

// ---------------------------------------------------------------------------
// Objects

#[test]
fn inflates_a_stream_and_ignores_what_follows() {
    let mut data = zlib(b"hello");
    data.extend_from_slice(b"trailing");
    assert_eq!(inflate_from(&data).unwrap(), b"hello");
    assert!(matches!(inflate_from(b"hello"), Err(ObjectError::Inflate)));
    let whole = zlib(&[7_u8; 5000]);
    assert!(matches!(
        inflate_from(&whole[..whole.len() - 6]),
        Err(ObjectError::Inflate)
    ));
}

#[test]
fn payloads_have_a_kind_and_a_body() {
    let object = parse_object_payload(b"blob 3\0abc").unwrap();
    assert!(object.kind == Kind::Blob);
    assert_eq!(object.data, b"abc");
    assert!(parse_object_payload(b"tag 0\0").unwrap().kind == Kind::Tag);
    assert!(parse_object_payload(b"tree\0").unwrap().kind == Kind::Tree);
    assert!(matches!(
        parse_object_payload(b"blob 3"),
        Err(ObjectError::MissingHeader)
    ));
    assert!(matches!(
        parse_object_payload(b"\xff 3\0"),
        Err(ObjectError::BadHeaderText)
    ));
    assert!(matches!(
        parse_object_payload(b"note 3\0abc"),
        Err(ObjectError::UnsupportedKind)
    ));
}

#[test]
fn loose_objects_are_read_back() {
    let mut files = no_files();
    files.loose.push(loose(1, "blob", b"abc"));
    files.loose.push(StoredFile {
        name: oid(2),
        data: None,
    });
    files.loose.push(file(&oid(3), b"not zlib".to_vec()));
    assert_eq!(read_loose_object(&files, &oid(1)).unwrap().data, b"abc");
    assert!(matches!(
        read_loose_object(&files, &oid(2)),
        Err(ObjectError::NotFound)
    ));
    assert!(matches!(
        read_loose_object(&files, &oid(3)),
        Err(ObjectError::Inflate)
    ));
    assert!(matches!(
        read_loose_object(&files, "abc"),
        Err(ObjectError::BadOid)
    ));
    assert!(matches!(
        read_object(&files, &oid(9)),
        Err(ObjectError::NotFound)
    ));
}

// ---------------------------------------------------------------------------
// Packs

fn header(kind: u8, size: usize) -> Vec<u8> {
    let mut rest = size >> 4;
    let mut out = vec![kind << 4 | (size & 15) as u8];
    while rest > 0 {
        *out.last_mut().unwrap() |= 0x80;
        out.push((rest & 0x7f) as u8);
        rest >>= 7;
    }
    out
}

fn distance(n: usize) -> Vec<u8> {
    let mut out = vec![(n & 0x7f) as u8];
    let mut rest = n >> 7;
    while rest > 0 {
        rest -= 1;
        out.insert(0, 0x80 | (rest & 0x7f) as u8);
        rest >>= 7;
    }
    out
}

struct PackBuilder {
    data: Vec<u8>,
    rows: Vec<(Vec<u8>, u32)>,
}

impl PackBuilder {
    fn new() -> Self {
        PackBuilder {
            data: b"PACK\0\0\0\x02\0\0\0\0".to_vec(),
            rows: Vec::new(),
        }
    }

    fn place(&self) -> usize {
        self.data.len()
    }

    fn whole(&mut self, id: u8, kind: u8, body: &[u8]) {
        self.rows.push((raw_oid(id), self.data.len() as u32));
        self.data.extend_from_slice(&header(kind, body.len()));
        self.data.extend_from_slice(&zlib(body));
    }

    fn offset_delta(&mut self, id: u8, back: usize, delta: &[u8]) {
        self.rows.push((raw_oid(id), self.data.len() as u32));
        self.data.extend_from_slice(&header(6, delta.len()));
        self.data.extend_from_slice(&distance(back));
        self.data.extend_from_slice(&zlib(delta));
    }

    fn ref_delta(&mut self, id: u8, base: u8, delta: &[u8]) {
        self.rows.push((raw_oid(id), self.data.len() as u32));
        self.data.extend_from_slice(&header(7, delta.len()));
        self.data.extend_from_slice(&raw_oid(base));
        self.data.extend_from_slice(&zlib(delta));
    }

    fn index(&self) -> Vec<u8> {
        let mut rows = self.rows.clone();
        rows.sort();
        let mut out = b"\xfftOc\0\0\0\x02".to_vec();
        for byte in 0..256_usize {
            let n = rows.iter().filter(|row| row.0[0] as usize <= byte).count() as u32;
            out.extend_from_slice(&n.to_be_bytes());
        }
        for row in &rows {
            out.extend_from_slice(&row.0);
        }
        for _ in &rows {
            out.extend_from_slice(&[0; 4]);
        }
        for row in &rows {
            out.extend_from_slice(&row.1.to_be_bytes());
        }
        out
    }

    fn files(&self) -> RepoFiles {
        let mut files = no_files();
        files.packs.push(file("pack-1.idx", self.index()));
        files.packs.push(file("pack-1.pack", self.data.clone()));
        files
    }
}

/// A delta that appends to a base of nine bytes what is inserted.
fn append_delta(inserted: &[u8]) -> Vec<u8> {
    let mut out = vec![9, 9 + inserted.len() as u8, 0x90, 9];
    out.push(inserted.len() as u8);
    out.extend_from_slice(inserted);
    out
}

#[test]
fn pack_headers_hold_type_and_size() {
    assert_eq!(parse_pack_header(&[0x35], 0), Ok((3, 5, 1)));
    assert_eq!(parse_pack_header(&[0, 0x95, 0x0a], 1), Ok((1, 165, 3)));
    assert_eq!(parse_pack_header(&header(2, 70_000), 0), Ok((2, 70_000, 3)));
    assert_eq!(parse_pack_header(&[], 0), Err(ObjectError::ShortPackHeader));
    assert_eq!(
        parse_pack_header(&[0x95], 0),
        Err(ObjectError::ShortPackSize)
    );
}

#[test]
fn offset_deltas_lead_back_to_their_base() {
    assert_eq!(parse_ofs_delta(&[0x05], 12, 0), Ok((7, 1)));
    assert_eq!(parse_ofs_delta(&[0x80, 0x00], 200, 0), Ok((72, 2)));
    assert_eq!(parse_ofs_delta(&distance(20_000), 20_001, 0), Ok((1, 3)));
    assert_eq!(
        parse_ofs_delta(&[0x05], 4, 0),
        Err(ObjectError::BadOfsDelta)
    );
    assert_eq!(
        parse_ofs_delta(&[0x85], 4, 0),
        Err(ObjectError::ShortOfsDelta)
    );
}

#[test]
fn packed_objects_are_read_back() {
    let mut pack = PackBuilder::new();
    pack.whole(0x21, 3, b"base text");
    pack.whole(0x11, 1, b"commit body");
    pack.whole(0x12, 4, b"tag body");
    let files = pack.files();
    let object = read_object(&files, &oid(0x21)).unwrap();
    assert!(object.kind == Kind::Blob);
    assert_eq!(object.data, b"base text");
    assert!(read_object(&files, &oid(0x11)).unwrap().kind == Kind::Commit);
    assert!(read_object(&files, &oid(0x12)).unwrap().kind == Kind::Tag);
    assert!(matches!(
        read_object(&files, &oid(0x13)),
        Err(ObjectError::NotFound)
    ));
}

#[test]
fn loose_objects_go_before_packed_ones() {
    let mut pack = PackBuilder::new();
    pack.whole(0x21, 3, b"packed");
    let mut files = pack.files();
    files.loose.push(loose(0x21, "blob", b"loose"));
    assert_eq!(read_object(&files, &oid(0x21)).unwrap().data, b"loose");
}

#[test]
fn deltas_are_resolved_over_their_bases() {
    let mut pack = PackBuilder::new();
    let base = pack.place();
    pack.whole(0x30, 3, b"base text");
    let back = pack.place() - base;
    pack.offset_delta(0x31, back, &append_delta(b" and more"));
    pack.ref_delta(0x32, 0x30, &append_delta(b"!"));
    let files = pack.files();
    assert_eq!(
        read_object(&files, &oid(0x31)).unwrap().data,
        b"base text and more"
    );
    let object = read_object(&files, &oid(0x32)).unwrap();
    assert!(object.kind == Kind::Blob);
    assert_eq!(object.data, b"base text!");
}

#[test]
fn reference_deltas_may_build_on_loose_objects() {
    let mut pack = PackBuilder::new();
    pack.ref_delta(0x32, 0x30, &append_delta(b"?"));
    let mut files = pack.files();
    files.loose.push(loose(0x30, "blob", b"base text"));
    assert_eq!(
        read_object(&files, &oid(0x32)).unwrap().data,
        b"base text?"
    );
}

#[test]
fn chains_of_deltas_are_followed_to_their_end() {
    let mut pack = PackBuilder::new();
    pack.whole(0x40, 3, b"base text");
    for step in 0..20_u8 {
        let mut copy = vec![9, 9, 0x90, 9];
        if step % 2 == 0 {
            copy = vec![9, 9, 0x90, 8, 1, b'0' + step];
        }
        pack.ref_delta(0x41 + step, 0x40 + step, &copy);
    }
    let files = pack.files();
    let last = read_object(&files, &oid(0x41 + 19)).unwrap();
    assert_eq!(last.data, b"base texB");
    let bounded = read_object_within(&files, &oid(0x41 + 19), 20).unwrap();
    assert_eq!(bounded.data, last.data);
    assert!(matches!(
        read_object_within(&files, &oid(0x41 + 19), 19),
        Err(ObjectError::CyclicDelta)
    ));
}

#[test]
fn deltas_in_a_circle_are_reported() {
    let mut pack = PackBuilder::new();
    pack.ref_delta(0x50, 0x51, &append_delta(b"a"));
    pack.ref_delta(0x51, 0x50, &append_delta(b"b"));
    assert!(matches!(
        read_object(&pack.files(), &oid(0x50)),
        Err(ObjectError::CyclicDelta)
    ));
}

#[test]
fn long_chains_of_offset_deltas_are_refused() {
    let mut pack = PackBuilder::new();
    let mut before = pack.place();
    pack.whole(0x60, 3, b"base text");
    for step in 0..33_u8 {
        let here = pack.place();
        pack.offset_delta(0x61 + step, here - before, &[9, 9, 0x90, 9]);
        before = here;
    }
    let files = pack.files();
    assert_eq!(
        read_object(&files, &oid(0x61 + 31)).unwrap().data,
        b"base text"
    );
    assert!(matches!(
        read_object(&files, &oid(0x61 + 32)),
        Err(ObjectError::DepthExceeded)
    ));
}

#[test]
fn broken_packs_are_reported() {
    let mut pack = PackBuilder::new();
    pack.whole(0x21, 3, b"base text");
    pack.whole(0x22, 5, b"unknown type");
    pack.rows.push((raw_oid(0x23), pack.data.len() as u32));
    pack.data.extend_from_slice(&header(7, 3));
    pack.data.extend_from_slice(&[1, 2, 3]);
    let mut files = pack.files();
    assert!(matches!(
        read_object(&files, &oid(0x22)),
        Err(ObjectError::UnsupportedType)
    ));
    assert!(matches!(
        read_object(&files, &oid(0x23)),
        Err(ObjectError::BadRefDelta)
    ));
    files.packs[1].data.as_mut().unwrap()[0] = b'X';
    assert!(matches!(
        read_object(&files, &oid(0x21)),
        Err(ObjectError::BadPack)
    ));
    files.packs.pop();
    assert!(matches!(
        read_object(&files, &oid(0x21)),
        Err(ObjectError::Unreadable)
    ));
}

#[test]
fn indexes_lead_to_offsets() {
    let mut pack = PackBuilder::new();
    pack.whole(0x00, 3, b"a");
    pack.whole(0xff, 3, b"b");
    pack.whole(0x7f, 3, b"c");
    let index = pack.index();
    for row in &pack.rows {
        let id = rsgit::numbers::bytes_to_hex(&row.0);
        assert_eq!(idx_lookup(&index, &id), Ok(row.1 as u64));
    }
    assert_eq!(idx_lookup(&index, &oid(0x01)), Err(ObjectError::NotInIdx));
    assert_eq!(idx_lookup(b"PACK....", &oid(1)), Err(ObjectError::UnsupportedIdx));
    assert_eq!(
        idx_lookup(b"\xfftOc\0\0\0\x01", &oid(1)),
        Err(ObjectError::UnsupportedIdxVersion)
    );
    assert_eq!(idx_lookup(&index[..1000], &oid(1)), Err(ObjectError::ShortIdx));
    assert_eq!(idx_lookup(&index, "abc"), Err(ObjectError::BadOid));
}

#[test]
fn indexes_hold_large_offsets_apart() {
    let mut pack = PackBuilder::new();
    pack.rows.push((raw_oid(5), 0x8000_0000));
    let mut index = pack.index();
    assert_eq!(idx_lookup(&index, &oid(5)), Err(ObjectError::ShortIdx));
    index.extend_from_slice(&0x1_2345_6789_u64.to_be_bytes());
    assert_eq!(idx_lookup(&index, &oid(5)), Ok(0x1_2345_6789));
}

// ---------------------------------------------------------------------------
// Trees

#[test]
fn trees_are_read_entry_by_entry() {
    let mut data = tree_entry("100644", "a b", 1);
    data.extend_from_slice(&tree_entry("040000", "d", 2));
    data.extend_from_slice(&tree_entry("160000", "s", 3));
    let entries = parse_tree(&data).unwrap();
    assert_eq!(entries.len(), 3);
    assert_eq!(entries[0].mode, "100644");
    assert_eq!(entries[0].kind, "blob");
    assert_eq!(entries[0].name, "a b");
    assert_eq!(entries[0].oid, oid(1));
    assert_eq!(entries[1].kind, "tree");
    assert_eq!(entries[2].kind, "commit");
    assert_eq!(parse_tree(b"").unwrap().len(), 0);
}

#[test]
fn names_in_trees_may_be_no_text() {
    let mut data = b"100644 a\xffb\0".to_vec();
    data.extend_from_slice(&raw_oid(1));
    assert_eq!(parse_tree(&data).unwrap()[0].name, "a\u{fffd}b");
}

#[test]
fn broken_trees_are_reported() {
    let whole = tree_entry("100644", "a", 1);
    assert!(matches!(
        parse_tree(b"100644"),
        Err(ObjectError::BadTreeMode)
    ));
    assert!(matches!(
        parse_tree(b"\xff a\0"),
        Err(ObjectError::BadTreeModeText)
    ));
    assert!(matches!(
        parse_tree(b"100644 a"),
        Err(ObjectError::BadTreeName)
    ));
    assert!(matches!(
        parse_tree(&whole[..whole.len() - 1]),
        Err(ObjectError::BadTreeOid)
    ));
}

#[test]
fn paths_go_down_directories() {
    let demo = sample();
    assert_eq!(lookup_entry(&demo, &oid(4), "a.txt").unwrap().oid, oid(6));
    assert_eq!(lookup_entry(&demo, &oid(4), "dir/run").unwrap().oid, oid(9));
    assert!(lookup_entry(&demo, &oid(4), "a.txt/run").is_none());
    assert!(lookup_entry(&demo, &oid(4), "dir/none").is_none());
    assert!(lookup_entry(&demo, &oid(4), "").is_none());
    assert_eq!(lookup_tree_path(&demo, &oid(4), ""), Some(oid(4)));
    assert_eq!(lookup_tree_path(&demo, &oid(4), "dir"), Some(oid(7)));
    assert_eq!(lookup_tree_path(&demo, &oid(4), "a.txt"), None);
    assert!(matches!(
        read_tree(&demo, &oid(6)),
        Err(ObjectError::NotATree)
    ));
}

#[test]
fn directories_and_files_are_read_at_revisions() {
    let demo = sample();
    let names: Vec<String> = tree_entries(&demo, "main", "")
        .into_iter()
        .map(|entry| entry.name)
        .collect();
    assert_eq!(names, ["a.txt", "dir", "sub"]);
    assert_eq!(tree_entries(&demo, &oid(1), "").len(), 1);
    assert_eq!(tree_entries(&demo, "HEAD", "dir").len(), 1);
    assert_eq!(tree_entries(&demo, "HEAD", "none").len(), 0);
    assert_eq!(tree_entries(&demo, "nope", "").len(), 0);
    assert_eq!(blob(&demo, "HEAD", "a.txt", 8), Some(b"new text".to_vec()));
    assert_eq!(blob(&demo, "HEAD", "a.txt", 7), None);
    assert_eq!(blob(&demo, &oid(1), "a.txt", 100), Some(b"old".to_vec()));
    assert_eq!(blob(&demo, "HEAD", "dir/run", 100), Some(b"#!x".to_vec()));
    assert_eq!(blob(&demo, "HEAD", "dir", 100), None);
    assert_eq!(blob(&demo, "HEAD", "sub", 100), None);
}

// ---------------------------------------------------------------------------
// Commits

#[test]
fn commits_show_what_their_text_says() {
    let demo = sample();
    let second = commit(&demo, "HEAD").unwrap();
    assert_eq!(second.id, oid(2));
    assert_eq!(second.short_id, "02020202");
    assert_eq!(second.subject, "Second Step");
    assert_eq!(second.message.lines().next(), Some("Second Step"));
    assert_eq!(second.author, "Bob Lee");
    assert_eq!(second.time, -5);
    assert_eq!(second.parents, [oid(1)]);
    assert_eq!(second.tree, oid(4));
    assert!(commit(&demo, &oid(4)).is_none());
    assert!(commit(&demo, &oid(0x77)).is_none());
}

#[test]
fn commit_texts_may_lack_anything() {
    let bare = parse_commit_text("id".to_string(), "");
    assert_eq!(bare.subject, "");
    assert_eq!(bare.message, "");
    assert_eq!(bare.author, "");
    assert_eq!(bare.time, 0);
    assert_eq!(bare.parents.len(), 0);
    assert_eq!(bare.tree, "");
    let odd = parse_commit_text(
        "id".to_string(),
        "tree x\r\nauthor A\nparent p\nparent q\nauthor  B <m> 7 z\n\nline\r\nmore",
    );
    assert_eq!(odd.tree, "x");
    assert_eq!(odd.parents, ["p", "q"]);
    assert_eq!(odd.author, "B");
    assert_eq!(odd.time, 7);
    assert_eq!(odd.subject, "line");
    assert_eq!(odd.message, "line\r\nmore");
}

#[test]
fn signatures_hold_a_name_and_a_time() {
    assert_eq!(parse_signature("A B <a@b> 12 +0000"), ("A B".to_string(), 12));
    assert_eq!(parse_signature("<a@b> +12 x"), ("".to_string(), 12));
    assert_eq!(parse_signature("nobody"), ("nobody".to_string(), 0));
    assert_eq!(
        parse_signature("A <b> 9223372036854775808"),
        ("A".to_string(), 0)
    );
    assert_eq!(
        parse_signature("A <b> -9223372036854775808"),
        ("A".to_string(), i64::MIN)
    );
}

#[test]
fn commits_that_are_no_text_are_shown_all_the_same() {
    let mut files = no_files();
    files.loose.push(loose(1, "commit", b"author \xff <m> 3 z\n\nh\xffllo"));
    let shown = commit(&repo(files), &oid(1)).unwrap();
    assert_eq!(shown.author, "\u{fffd}");
    assert_eq!(shown.subject, "h\u{fffd}llo");
}

#[test]
fn history_follows_first_parents() {
    let demo = sample();
    let ids: Vec<String> = recent_commits(&demo, 10)
        .into_iter()
        .map(|c| c.id)
        .collect();
    assert_eq!(ids, [oid(2), oid(1)]);
    assert_eq!(recent_commits(&demo, 1).len(), 1);
    assert_eq!(recent_commits(&demo, 0).len(), 0);
    assert_eq!(recent_commits(&repo(no_files()), 10).len(), 0);
}

#[test]
fn a_shorter_history_is_the_start_of_a_longer_one() {
    let demo = sample();
    let long = recent_commits(&demo, 5);
    let short = recent_commits(&demo, 1);
    assert_eq!(short[0].id, long[0].id);
    assert_eq!(long[1].id, long[0].parents[0]);
}

#[test]
fn history_ends_where_parents_run_in_a_circle() {
    let mut files = no_files();
    files.head = Some(oid(1).into_bytes());
    files.loose.push(loose(1, "commit", &commit_text(9, &[2, 7], "A", 1, "one")));
    files.loose.push(loose(2, "commit", &commit_text(9, &[1], "A", 1, "two")));
    let ids: Vec<String> = recent_commits(&repo(files), 10)
        .into_iter()
        .map(|c| c.id)
        .collect();
    assert_eq!(ids, [oid(1), oid(2)]);
}

#[test]
fn history_ends_at_a_missing_parent() {
    let mut files = no_files();
    files.head = Some(oid(1).into_bytes());
    files.loose.push(loose(1, "commit", &commit_text(9, &[2], "A", 1, "one")));
    assert_eq!(recent_commits(&repo(files), 10).len(), 1);
}

#[test]
fn searches_look_at_messages() {
    let demo = sample();
    assert_eq!(search_commits(&demo, "STEP", 10).len(), 2);
    assert_eq!(search_commits(&demo, "step", 1)[0].id, oid(2));
    assert_eq!(search_commits(&demo, "first", 10)[0].id, oid(1));
    assert_eq!(search_commits(&demo, "body", 10).len(), 1);
    assert_eq!(search_commits(&demo, "BODY", 10)[0].id, oid(1));
    assert_eq!(search_commits(&demo, "", 10).len(), 2);
}

#[test]
fn searches_look_below_the_subject() {
    let mut files = no_files();
    files.head = Some(oid(1).into_bytes());
    let text = format!("tree {}\nauthor CVE-9 <m> 1 z\n\nFix parser\n\nfixes CVE-1\n", oid(9));
    files.loose.push(loose(1, "commit", text.as_bytes()));
    let demo = repo(files);
    let found = search_commits(&demo, "cve-1", 1);
    assert_eq!(found.len(), 1);
    assert_eq!(found[0].subject, "Fix parser");
    assert_eq!(found[0].message, "Fix parser\n\nfixes CVE-1\n");
    assert_eq!(search_commits(&demo, "cve-9", 1).len(), 0);
}

#[test]
fn revisions_stand_for_ids_in_small_letters() {
    let capital = "ABCDEF0123456789ABCDEF0123456789ABCDEF01";
    let small = capital.to_lowercase();
    let mut detached = no_files();
    detached.head = Some(format!("{capital}\n").into_bytes());
    assert_eq!(resolve_rev(&repo(detached), "HEAD"), Some(small.clone()));
    let mut files = no_files();
    files.head = Some(b"ref: refs/heads/main\n".to_vec());
    files.refs.push(ref_file(&["heads", "main"], &format!("{capital}\n")));
    files.packed_refs = Some(format!("{capital} refs/tags/v1\n"));
    let demo = repo(files);
    for rev in ["HEAD", "main", "refs/heads/main", "refs/tags/v1", capital] {
        assert_eq!(resolve_rev(&demo, rev), Some(small.clone()));
    }
    assert_eq!(refs(&demo)[0].oid, capital);
}

#[test]
fn commits_below_a_head_in_capitals_have_small_ids() {
    let mut files = no_files();
    files.head = Some(oid(0xab).to_uppercase().into_bytes());
    files.loose.push(loose(0xab, "commit", &commit_text(9, &[], "A", 1, "one")));
    let demo = repo(files);
    assert_eq!(recent_commits(&demo, 10)[0].id, oid(0xab));
    assert_eq!(commit(&demo, "HEAD").unwrap().id, oid(0xab));
}

// ---------------------------------------------------------------------------
// Refs

#[test]
fn refs_come_from_files_and_packed_refs() {
    let mut files = no_files();
    files.refs.push(ref_file(&["heads", "main"], &format!(" {}\n", oid(1))));
    files.refs.push(ref_file(&["heads", "x", "y"], &oid(2)));
    files.refs.push(ref_file(&["heads", "broken"], "ref: refs/heads/main"));
    files.packed_refs = Some(format!(
        "# pack-refs with: peeled\n{} refs/tags/v1\n^{}\n{} refs/heads/main\n{} refs/tags/v1\nshort refs/tags/v2\n\n",
        oid(3),
        oid(4),
        oid(5),
        oid(6)
    ));
    let demo = repo(files);
    let list: Vec<(String, String)> = refs(&demo).into_iter().map(|r| (r.name, r.oid)).collect();
    assert_eq!(
        list,
        [
            ("refs/heads/main".to_string(), oid(1)),
            ("refs/heads/x/y".to_string(), oid(2)),
            ("refs/tags/v1".to_string(), oid(3)),
        ]
    );
    let names: Vec<String> = branches(&demo).into_iter().map(|r| r.name).collect();
    assert_eq!(names, ["refs/heads/main", "refs/heads/x/y"]);
    let told = format!(
        "{}\trefs/heads/main\n{}\trefs/heads/x/y\n{}\trefs/tags/v1\n",
        oid(1),
        oid(2),
        oid(3)
    );
    assert_eq!(info_refs(&demo), told.into_bytes());
}

#[test]
fn packed_lines_hold_an_id_and_a_name() {
    let line = format!("{} refs/tags/v1 more", oid(3));
    let found = parse_packed_ref(&line).unwrap();
    assert_eq!(found.name, "refs/tags/v1");
    assert_eq!(found.oid, oid(3));
    assert!(parse_packed_ref("").is_none());
    assert!(parse_packed_ref("# x").is_none());
    assert!(parse_packed_ref(&format!("^{}", oid(3))).is_none());
    assert!(parse_packed_ref(&oid(3)).is_none());
}

#[test]
fn revisions_are_ids_head_refs_or_branches() {
    let mut files = no_files();
    files.head = Some(b"ref: refs/heads/main\n".to_vec());
    files.refs.push(ref_file(&["heads", "main"], &oid(1)));
    files.refs.push(ref_file(&["tags", "v1"], &oid(2)));
    let demo = repo(files);
    assert_eq!(resolve_rev(&demo, "HEAD"), Some(oid(1)));
    assert_eq!(resolve_rev(&demo, "main"), Some(oid(1)));
    assert_eq!(resolve_rev(&demo, "refs/tags/v1"), Some(oid(2)));
    assert_eq!(resolve_rev(&demo, "v1"), None);
    assert_eq!(resolve_rev(&demo, &oid(0xAB).to_uppercase()), Some(oid(0xab)));
}

#[test]
fn head_may_be_an_id_or_broken() {
    let mut files = no_files();
    files.head = Some(format!(" {}\n", oid(7)).into_bytes());
    assert_eq!(resolve_rev(&repo(files), "HEAD"), Some(oid(7)));
    let mut broken = no_files();
    broken.head = Some(b"\xff".to_vec());
    assert_eq!(resolve_rev(&repo(broken), "HEAD"), None);
    let mut odd = no_files();
    odd.head = Some(b"nothing".to_vec());
    let odd = repo(odd);
    assert_eq!(resolve_rev(&odd, "HEAD"), None);
    assert_eq!(head_bytes(&odd), Some(b"nothing".to_vec()));
    assert_eq!(head_bytes(&repo(no_files())), None);
}

#[test]
fn descriptions_are_first_lines() {
    let described = |text: Option<&str>| {
        let mut files = no_files();
        files.description = text.map(str::to_string);
        description(&repo(files))
    };
    assert_eq!(described(Some("A tool\r\nmore")), "A tool");
    assert_eq!(described(Some("Unnamed repository; edit this file")), "");
    assert_eq!(described(Some("")), "");
    assert_eq!(described(None), "");
}

#[test]
fn repositories_know_their_git_directory() {
    let path = vec!["/".to_string(), "srv".to_string()];
    let bare = Repo::new("a".to_string(), path.clone(), true, no_files());
    let normal = Repo::new("b".to_string(), path, false, no_files());
    assert_eq!(bare.git_dir(), ["/", "srv"]);
    assert_eq!(normal.git_dir(), ["/", "srv", ".git"]);
    assert_eq!(normal.path(), ["/", "srv"]);
    assert_eq!(normal.name(), "b");
    assert!(bare.is_bare() && !normal.is_bare());
}
