use std::io::Write;

use flate2::write::ZlibEncoder;
use flate2::Compression;
use rsgit::app::route::{page_for, path_parts, reads_objects, route, Page, Route};
use rsgit::app::{App, Site, Step};
use rsgit::config::{Config, Environment};
use rsgit::http::parse;
use rsgit::repo::{
    files_path, find, find_path, lies_within, list, Candidate, Location, RefFile, RepoFiles,
    RootEntry, StoredFile,
};

// ---------------------------------------------------------------------------
// A site in memory

fn zlib(data: &[u8]) -> Vec<u8> {
    let mut encoder = ZlibEncoder::new(Vec::new(), Compression::default());
    encoder.write_all(data).unwrap();
    encoder.finish().unwrap()
}

fn oid(byte: u8) -> String {
    format!("{byte:02x}").repeat(20)
}

fn words(parts: &[&str]) -> Vec<String> {
    parts.iter().map(|part| part.to_string()).collect()
}

fn config(public_base: Option<&str>) -> Config {
    Config::from_env(
        Environment {
            addr: None,
            repo_root: None,
            public_base: public_base.map(str::to_string),
        },
        Ok("127.0.0.1:8080".to_string()),
        Ok(words(&["/", "srv"])),
    )
    .unwrap()
}

fn no_files() -> RepoFiles {
    RepoFiles {
        description: None,
        head: None,
        refs: Vec::new(),
        packed_refs: None,
        loose: Vec::new(),
        packs: Vec::new(),
    }
}

fn stored(name: &str, data: &[u8]) -> StoredFile {
    StoredFile {
        name: name.to_string(),
        data: Some(data.to_vec()),
    }
}

fn loose(byte: u8, kind: &str, body: &[u8]) -> StoredFile {
    let mut data = format!("{kind} {}\0", body.len()).into_bytes();
    data.extend_from_slice(body);
    stored(&oid(byte), &zlib(&data))
}

/// One commit with one file, whose names need escapes.
fn sample_files() -> RepoFiles {
    let mut files = no_files();
    files.description = Some("A <small> tool\n".to_string());
    files.head = Some(b"ref: refs/heads/main\n".to_vec());
    files.refs.push(RefFile {
        path: words(&["heads", "main"]),
        text: oid(1),
    });
    files.refs.push(RefFile {
        path: words(&["heads", "old"]),
        text: oid(8),
    });
    files.loose.push(loose(
        1,
        "commit",
        format!("tree {}\nauthor A & B <m> 42 +0000\n\nAdd <it>\n", oid(2)).as_bytes(),
    ));
    let mut tree = b"100644 a&b\0".to_vec();
    tree.extend_from_slice(&[3; 20]);
    tree.extend_from_slice(b"40000 dir\0");
    tree.extend_from_slice(&[2; 20]);
    files.loose.push(loose(2, "tree", &tree));
    files.loose.push(loose(3, "blob", b"1 < 2"));
    files.packs.push(stored("pack-b.pack", b""));
    files.packs.push(stored("pack-a.pack", b""));
    files.packs.push(stored("pack-a.idx", b""));
    files
}

fn location(path: &[&str], bare: bool) -> Location {
    Location {
        symlink: false,
        directory: true,
        canonical: Some(words(path)),
        has_git: !bare,
        git_symlink: bare,
        has_head: bare,
        has_objects: bare,
    }
}

fn sample() -> Candidate {
    Candidate {
        location: Some(location(&["/", "srv", "my repo"], true)),
        files: sample_files(),
    }
}

fn site(candidate: Candidate) -> Site {
    Site {
        entries: None,
        candidate,
        canonical: None,
        length: None,
        contents: None,
    }
}

fn ask(line: &str) -> String {
    let app = App::new(config(None));
    let input = format!("{line} HTTP/1.1\r\nHost: localhost:8080\r\n\r\n");
    let reply = app.respond(input.as_bytes(), site(sample())).unwrap();
    String::from_utf8(reply).unwrap()
}

fn status(reply: &str) -> &str {
    reply.lines().next().unwrap()
}

fn body(reply: &str) -> &str {
    reply.split_once("\r\n\r\n").unwrap().1
}

// ---------------------------------------------------------------------------
// Routes

#[test]
fn paths_are_split_at_slashes() {
    assert_eq!(path_parts("//a//b/"), ["a", "b"]);
    assert!(path_parts("/").is_empty());
    assert!(path_parts("").is_empty());
}

#[test]
fn routes_name_repositories() {
    assert!(matches!(route("/"), Route::Index));
    assert!(matches!(route("/x"), Route::NotFound));
    assert!(matches!(route("/repo/"), Route::MissingRepository));
    match route("/repo/a/tree/x") {
        Route::Repository { name, rest } => {
            assert_eq!(name, "a");
            assert_eq!(rest, ["tree", "x"]);
        }
        _ => panic!("no repository"),
    }
}

#[test]
fn pages_are_named_by_their_path() {
    assert!(page_for(&[]) == Page::Summary);
    assert!(page_for(&words(&["summary"])) == Page::Summary);
    assert!(page_for(&words(&["log"])) == Page::Log);
    assert!(page_for(&words(&["tree", "x"])) == Page::Tree);
    assert!(page_for(&words(&["blob"])) == Page::Blob);
    assert!(page_for(&words(&["commit"])) == Page::Commit);
    assert!(page_for(&words(&["diff"])) == Page::Diff);
    assert!(page_for(&words(&["search"])) == Page::Search);
    assert!(page_for(&words(&["HEAD"])) == Page::Head);
    assert!(page_for(&words(&["info", "refs"])) == Page::InfoRefs);
    assert!(page_for(&words(&["objects", "info", "packs"])) == Page::InfoPacks);
    assert!(page_for(&words(&["objects", "ab"])) == Page::File);
    assert!(page_for(&words(&["objects"])) == Page::Unknown);
    assert!(page_for(&words(&["config"])) == Page::Unknown);
    assert!(reads_objects(Page::Blob) && !reads_objects(Page::File));
    assert!(!reads_objects(Page::InfoRefs));
}

// ---------------------------------------------------------------------------
// Discovery

#[test]
fn paths_lie_within_by_components() {
    let root = words(&["/", "srv"]);
    assert!(lies_within(&root, &words(&["/", "srv"])));
    assert!(lies_within(&root, &words(&["/", "srv", "a"])));
    assert!(!lies_within(&root, &words(&["/", "srv2"])));
    assert!(!lies_within(&root, &words(&["/"])));
}

#[test]
fn repositories_are_found_by_safe_names() {
    let config = config(None);
    assert_eq!(find_path(&config, "a"), Some(words(&["/", "srv", "a"])));
    assert_eq!(find_path(&config, "../a"), None);
    let found = find(&config, "my repo", sample()).unwrap();
    assert_eq!(found.name(), "my repo");
    assert!(found.is_bare());
    assert!(find(&config, "..", sample()).is_none());
}

#[test]
fn only_real_directories_within_the_root_are_repositories() {
    let config = config(None);
    let judged = |location: Option<Location>| {
        find(
            &config,
            "a",
            Candidate {
                location,
                files: no_files(),
            },
        )
        .map(|found| found.git_dir())
    };
    let bare = location(&["/", "srv", "a"], true);
    let normal = location(&["/", "srv", "a"], false);
    assert_eq!(judged(Some(bare.clone())), Some(words(&["/", "srv", "a"])));
    assert_eq!(
        judged(Some(normal.clone())),
        Some(words(&["/", "srv", "a", ".git"]))
    );
    assert_eq!(
        files_path(&config, &Some(normal.clone())),
        Some(words(&["/", "srv", "a", ".git"]))
    );
    assert_eq!(judged(None), None);
    let mut link = bare.clone();
    link.symlink = true;
    assert_eq!(judged(Some(link)), None);
    let mut plain = bare.clone();
    plain.directory = false;
    assert_eq!(judged(Some(plain)), None);
    let mut gone = bare.clone();
    gone.canonical = None;
    assert_eq!(judged(Some(gone)), None);
    assert_eq!(judged(Some(location(&["/", "etc"], true))), None);
    let mut linked = normal.clone();
    linked.git_symlink = true;
    assert_eq!(judged(Some(linked.clone())), None);
    assert_eq!(files_path(&config, &Some(linked)), None);
    let mut half = bare.clone();
    half.has_head = false;
    assert_eq!(judged(Some(half)), None);
}

fn entry(name: Option<&str>, description: &str) -> RootEntry {
    let mut files = no_files();
    files.description = Some(description.to_string());
    RootEntry {
        name: name.map(str::to_string),
        candidate: Candidate {
            location: Some(location(&["/", "srv", "x"], true)),
            files,
        },
    }
}

#[test]
fn entries_with_any_name_in_text_are_listed() {
    let config = config(None);
    let entries = vec![
        entry(Some("b"), "two"),
        entry(Some(".hidden"), ""),
        entry(None, ""),
        entry(Some("a"), "one"),
    ];
    let names: Vec<String> = list(&config, Some(entries))
        .iter()
        .map(|repo| repo.name().to_string())
        .collect();
    assert_eq!(names, ["b", ".hidden", "a"]);
    assert!(list(&config, None).is_empty());
}

#[test]
fn names_may_start_with_a_dot() {
    let mut dotted = entry(Some(".dotfiles"), "settings");
    dotted.candidate.location = Some(location(&["/", "srv", ".dotfiles"], false));
    let found = list(&config(None), Some(vec![dotted]));
    assert_eq!(found.len(), 1);
    assert_eq!(found[0].name(), ".dotfiles");
    assert!(!found[0].is_bare());
}

// ---------------------------------------------------------------------------
// Index

fn index(line: &str, entries: Option<Vec<RootEntry>>) -> String {
    let app = App::new(config(None));
    let mut place = site(sample());
    place.entries = entries;
    let input = format!("{line} HTTP/1.1\r\n\r\n");
    String::from_utf8(app.respond(input.as_bytes(), place).unwrap()).unwrap()
}

#[test]
fn the_index_lists_repositories_by_name() {
    let entries = vec![entry(Some("b<c"), "two"), entry(Some("a b"), "one")];
    let reply = index("GET /", Some(entries));
    assert_eq!(status(&reply), "HTTP/1.1 200 OK");
    assert!(body(&reply).contains(
        "<tr><td><a href=\"/repo/a%20b/summary\">a b</a></td><td>one</td></tr><tr><td><a href=\"/repo/b%3Cc/summary\">b&lt;c</a></td><td>two</td></tr></table>"
    ));
}

#[test]
fn the_index_can_be_searched() {
    let entries = vec![entry(Some("b"), "Two"), entry(Some("a"), "one")];
    let reply = index("GET /?q=+tW%22", Some(entries.clone()));
    assert!(body(&reply).contains("value=\"tW&quot;\""));
    assert!(!body(&reply).contains("/summary"));
    let found = index("GET /?q=TWO", Some(entries.clone()));
    assert!(found.contains("/repo/b/summary") && !found.contains("/repo/a/summary"));
    let named = index("GET /?q=A", Some(entries));
    assert!(named.contains("/repo/a/summary") && !named.contains("/repo/b/summary"));
}

#[test]
fn an_unreadable_root_is_an_empty_index() {
    let reply = index("GET /", None);
    assert!(body(&reply).contains("<th>Description</th></tr></table>"));
}

// ---------------------------------------------------------------------------
// Refusals

#[test]
fn nothing_received_is_not_answered() {
    let app = App::new(config(None));
    assert!(app.respond(b"", site(sample())).is_none());
    assert!(matches!(app.receive(b""), Step::Close));
}

#[test]
fn requests_that_cannot_be_read_are_refused() {
    let app = App::new(config(None));
    let reply = app.respond(b"nonsense\r\n\r\n", site(sample())).unwrap();
    let reply = String::from_utf8(reply).unwrap();
    assert_eq!(status(&reply), "HTTP/1.1 400 Bad Request");
    assert_eq!(body(&reply), "bad request");
}

#[test]
fn other_methods_are_refused() {
    for method in ["POST", "PUT", "DELETE", "get"] {
        let reply = ask(&format!("{method} /repo/my%20repo/git-receive-pack"));
        assert_eq!(status(&reply), "HTTP/1.1 405 Method Not Allowed");
        assert_eq!(body(&reply), "method not allowed");
    }
}

#[test]
fn unknown_paths_are_not_found() {
    assert_eq!(status(&ask("GET /x")), "HTTP/1.1 404 Not Found");
    assert_eq!(status(&ask("GET /repo")), "HTTP/1.1 400 Bad Request");
    assert!(ask("GET /repo").contains("<h1>missing repository</h1>"));
    let odd = ask("GET /repo/a..b/summary");
    assert_eq!(status(&odd), "HTTP/1.1 404 Not Found");
    assert!(odd.contains("<h1>repository not found</h1>"));
    assert!(ask("GET /repo/my%20repo/other").contains("<h1>not found</h1>"));
}

#[test]
fn unsafe_names_are_not_looked_up() {
    let app = App::new(config(None));
    let step = app.receive(b"GET /repo/%2e%2e/summary HTTP/1.1\r\n\r\n");
    assert!(matches!(step, Step::Send(_)));
    match app.receive(b"GET /repo/x/summary HTTP/1.1\r\n\r\n") {
        Step::Find(_, path) => assert_eq!(path, ["/", "srv", "x"]),
        _ => panic!("not looked up"),
    }
}

#[test]
fn unsafe_revisions_and_paths_are_refused() {
    for (line, text) in [
        ("GET /repo/r/tree?rev=--x", "<h1>bad path</h1>"),
        ("GET /repo/r/tree?path=../x", "<h1>bad path</h1>"),
        ("GET /repo/r/blob?path=/x", "<h1>bad blob</h1>"),
        ("GET /repo/r/blob", "<h1>bad blob</h1>"),
        ("GET /repo/r/commit?id=a..b", "<h1>bad revision</h1>"),
        ("GET /repo/r/diff?id=a%20b", "<h1>bad revision</h1>"),
        ("GET /repo/r/search?q=a%01b", "<h1>bad search query</h1>"),
    ] {
        let reply = ask(line);
        assert_eq!(status(&reply), "HTTP/1.1 400 Bad Request", "{line}");
        assert!(reply.contains(text), "{line}");
    }
    let long = format!("GET /repo/r/search?q={}", "a".repeat(129));
    assert_eq!(status(&ask(&long)), "HTTP/1.1 400 Bad Request");
    let fits = format!("GET /repo/r/search?q={}", "a".repeat(128));
    assert_eq!(status(&ask(&fits)), "HTTP/1.1 200 OK");
}

// ---------------------------------------------------------------------------
// Pages

#[test]
fn the_summary_shows_branches_commits_and_the_clone_command() {
    let reply = ask("GET /repo/my%20repo");
    assert_eq!(status(&reply), "HTTP/1.1 200 OK");
    assert!(reply.contains("<title>my repo</title>"));
    assert!(reply.contains(
        "<tr><td>main</td><td>Add &lt;it&gt;</td><td>A &amp; B</td><td class=\"muted\">42</td></tr>"
    ));
    let unknown = format!(
        "<tr><td>old</td><td>{}</td><td></td><td class=\"muted\"></td></tr>",
        oid(8)
    );
    assert!(reply.contains(&unknown));
    let recent = format!(
        "<tr><td>42</td><td><a href=\"/repo/my%20repo/commit?id={}\">Add &lt;it&gt;</a></td><td>A &amp; B</td></tr>",
        oid(1)
    );
    assert!(reply.contains(&recent));
    assert!(reply.contains(
        "<div class=\"clone-url\">git clone http://localhost:8080/repo/my%20repo</div>"
    ));
    assert!(!reply.contains("file://"));
}

#[test]
fn the_navigation_marks_the_page() {
    let reply = ask("GET /repo/my%20repo/log");
    assert!(reply.contains(
        "<nav class=\"topbar\"><div><a href=\"/\">index</a> | <a href=\"/repo/my%20repo/summary\">summary</a> | <strong><a href=\"/repo/my%20repo/log\">log</a></strong> | <a href=\"/repo/my%20repo/tree\">tree</a></div><form class=\"search\" method=\"get\" action=\"/repo/my%20repo/search\">"
    ));
}

#[test]
fn the_log_lists_commits() {
    let reply = ask("GET /repo/my%20repo/log");
    assert!(reply.contains("<title>my repo refs</title>"));
    let row = format!(
        "<tr><td><a href=\"/repo/my%20repo/commit?id={}\">01010101</a></td><td>42</td><td>A &amp; B</td><td>Add &lt;it&gt;</td></tr>",
        oid(1)
    );
    assert!(reply.contains(&row));
}

#[test]
fn the_tree_links_to_its_entries() {
    let reply = ask("GET /repo/my%20repo/tree?rev=main");
    assert!(reply.contains(
        "<tr><td>100644</td><td>blob</td><td>03030303</td><td><a href=\"/repo/my%20repo/blob?rev=main&path=a%26b\">a&amp;b</a></td></tr>"
    ));
    assert!(reply.contains("/repo/my%20repo/tree?rev=main&path=dir\">dir</a>"));
    let below = ask("GET /repo/my%20repo/tree?path=dir");
    assert!(below.contains("/blob?rev=HEAD&path=dir/a%26b\">"));
}

#[test]
fn links_lead_to_what_they_show() {
    let link = "/repo/my%20repo/blob?rev=main&path=a%26b";
    let req = parse(&format!("GET {link} HTTP/1.1")).unwrap();
    assert_eq!(req.query("rev"), Some("main"));
    assert_eq!(req.query("path"), Some("a&b"));
    assert!(matches!(route(req.path()), Route::Repository { name, .. } if name == "my repo"));
    let reply = ask(&format!("GET {link}"));
    assert!(reply.contains("<h1>a&amp;b</h1><pre>1 &lt; 2</pre>"));
}

#[test]
fn blobs_that_are_missing_are_not_found() {
    let reply = ask("GET /repo/my%20repo/blob?path=none");
    assert_eq!(status(&reply), "HTTP/1.1 404 Not Found");
    assert!(reply.contains("<h1>blob not found or too large</h1>"));
}

#[test]
fn commits_are_shown() {
    let reply = ask("GET /repo/my%20repo/commit");
    assert!(reply.contains("<title>commit 01010101</title>"));
    let shown = format!(
        "<h1>commit {}</h1><p><strong>Author:</strong> A &amp; B</p><p><strong>Time:</strong> 42</p><p><strong>Parents:</strong> </p><pre>Add &lt;it&gt;</pre>",
        oid(1)
    );
    assert!(reply.contains(&shown));
    let missing = ask("GET /repo/my%20repo/commit?id=none");
    assert_eq!(status(&missing), "HTTP/1.1 404 Not Found");
}

#[test]
fn diffs_are_announced() {
    let reply = ask("GET /repo/my%20repo/diff?id=main");
    assert!(reply.contains("<h1>diff main</h1><p class=\"muted\">Native textual diff is queued next"));
}

#[test]
fn searches_show_what_they_find() {
    let reply = ask("GET /repo/my%20repo/search?q=+ADD+");
    assert!(reply.contains(">01010101</a></td><td>Add &lt;it&gt;</td><td>A &amp; B</td></tr>"));
    assert!(!ask("GET /repo/my%20repo/search?q=xyz").contains("01010101"));
}

#[test]
fn clone_commands_are_over_http_or_none() {
    let shown = |public_base: Option<&str>, host: &str| {
        let app = App::new(config(public_base));
        let input = format!("GET /repo/x HTTP/1.1\r\nHost: {host}\r\n\r\n");
        let reply = app.respond(input.as_bytes(), site(sample())).unwrap();
        let reply = String::from_utf8(reply).unwrap();
        let (_, rest) = reply.split_once("<div class=\"clone-url\">").unwrap();
        rest.split_once("</div>").unwrap().0.to_string()
    };
    assert_eq!(
        shown(Some("https://git.example.com//"), "h"),
        "git clone https://git.example.com/repo/x"
    );
    assert_eq!(shown(Some("file:///srv"), "h"), "clone URL not configured");
    assert_eq!(shown(Some("https://a b"), "h"), "clone URL not configured");
    assert_eq!(shown(None, "h:80"), "git clone http://h:80/repo/x");
    assert_eq!(shown(None, "h/x"), "clone URL not configured");
}

// ---------------------------------------------------------------------------
// Clone

#[test]
fn clones_are_told_refs_and_packs() {
    let head = ask("GET /repo/my%20repo/HEAD");
    assert!(head.contains("Content-Type: text/plain; charset=utf-8\r\n"));
    assert_eq!(body(&head), "ref: refs/heads/main\n");
    let refs = ask("GET /repo/my%20repo/info/refs?service=git-upload-pack");
    assert_eq!(
        body(&refs),
        format!("{}\trefs/heads/main\n{}\trefs/heads/old\n", oid(1), oid(8))
    );
    let packs = ask("GET /repo/my%20repo/objects/info/packs");
    assert_eq!(body(&packs), "P pack-a.pack\nP pack-b.pack\n");
}

#[test]
fn a_missing_head_is_not_found() {
    let app = App::new(config(None));
    let mut candidate = sample();
    candidate.files.head = None;
    let reply = app
        .respond(b"GET /repo/x/HEAD HTTP/1.1\r\n\r\n", site(candidate))
        .unwrap();
    let reply = String::from_utf8(reply).unwrap();
    assert_eq!(status(&reply), "HTTP/1.1 404 Not Found");
    assert_eq!(body(&reply), "not found");
}

fn fetch(path: &str, canonical: Option<&[&str]>, length: Option<u64>, data: Option<&[u8]>) -> String {
    fetch_by("GET", path, canonical, length, data)
}

fn fetch_by(
    method: &str,
    path: &str,
    canonical: Option<&[&str]>,
    length: Option<u64>,
    data: Option<&[u8]>,
) -> String {
    let app = App::new(config(None));
    let mut place = site(sample());
    place.canonical = canonical.map(words);
    place.length = length;
    place.contents = data.map(<[u8]>::to_vec);
    let input = format!("{method} /repo/x/{path} HTTP/1.1\r\n\r\n");
    String::from_utf8(app.respond(input.as_bytes(), place).unwrap()).unwrap()
}

#[test]
fn object_files_are_served_step_by_step() {
    let pack = "objects/pack/pack-1.pack";
    let inside: &[&str] = &["/", "srv", "my repo", "objects", "pack", "pack-1.pack"];
    let served = fetch(pack, Some(inside), Some(3), Some(b"abc"));
    assert_eq!(status(&served), "HTTP/1.1 200 OK");
    assert!(served.contains("Content-Type: application/octet-stream\r\n"));
    assert_eq!(body(&served), "abc");
    let object = format!("objects/ab/{}", "0".repeat(38));
    let served = fetch(&object, Some(inside), Some(3), Some(b"abc"));
    assert!(served.contains("Content-Type: text/plain; charset=utf-8\r\n"));
}

#[test]
fn object_files_may_be_refused_at_every_step() {
    let pack = "objects/pack/pack-1.pack";
    let inside: &[&str] = &["/", "srv", "my repo", "objects", "pack", "pack-1.pack"];
    let outside: &[&str] = &["/", "etc", "passwd"];
    let limit = 128 * 1024 * 1024;
    assert_eq!(body(&fetch("objects/../config", None, None, None)), "bad path");
    assert_eq!(status(&fetch(pack, None, None, None)), "HTTP/1.1 404 Not Found");
    let forbidden = fetch(pack, Some(outside), Some(3), Some(b"abc"));
    assert_eq!(status(&forbidden), "HTTP/1.1 403 Forbidden");
    assert_eq!(body(&forbidden), "forbidden");
    assert_eq!(
        status(&fetch(pack, Some(inside), None, Some(b"abc"))),
        "HTTP/1.1 404 Not Found"
    );
    let large = fetch(pack, Some(inside), Some(limit + 1), Some(b"abc"));
    assert_eq!(status(&large), "HTTP/1.1 413 Payload Too Large");
    assert_eq!(body(&large), "too large");
    assert_eq!(
        status(&fetch(pack, Some(inside), Some(limit), Some(b"abc"))),
        "HTTP/1.1 200 OK"
    );
    assert_eq!(
        status(&fetch(pack, Some(inside), Some(3), None)),
        "HTTP/1.1 404 Not Found"
    );
}

#[test]
fn files_are_looked_for_at_the_path_asked_for() {
    let app = App::new(config(None));
    let req = parse("GET /repo/x/objects//pack/pack-1.idx HTTP/1.1").unwrap();
    match app.found(req, sample()) {
        Step::Resolve(file) => {
            assert_eq!(file.clone_path, "objects/pack/pack-1.idx");
            assert_eq!(
                file.path,
                ["/", "srv", "my repo", "objects", "pack", "pack-1.idx"]
            );
            assert!(!file.head_only);
        }
        _ => panic!("not resolved"),
    }
}

// ---------------------------------------------------------------------------
// Header alone

#[test]
fn header_requests_are_answered_without_a_body() {
    for path in ["/repo/my%20repo", "/x", "/repo/my%20repo/HEAD", "/repo"] {
        let whole = ask(&format!("GET {path}"));
        let header = ask(&format!("HEAD {path}"));
        let (start, _) = whole.split_once("\r\n\r\n").unwrap();
        assert_eq!(header, format!("{start}\r\n\r\n"));
    }
}

#[test]
fn header_requests_for_files_are_answered_without_a_body() {
    let pack = "objects/pack/pack-1.pack";
    let inside: &[&str] = &["/", "srv", "my repo", "objects", "pack", "pack-1.pack"];
    let outside: &[&str] = &["/", "etc"];
    let data: &[u8] = b"ab\r\n\r\nc";
    let cases: [(&str, Option<&[&str]>, Option<u64>, Option<&[u8]>, &str); 7] = [
        (pack, Some(inside), Some(7), Some(data), "200 OK"),
        (pack, Some(inside), Some(7), None, "404 Not Found"),
        (pack, Some(inside), None, Some(data), "404 Not Found"),
        (pack, Some(inside), Some(u64::MAX), Some(data), "413 Payload Too Large"),
        (pack, Some(outside), Some(7), Some(data), "403 Forbidden"),
        (pack, None, Some(7), Some(data), "404 Not Found"),
        ("objects/../config", None, None, None, "400 Bad Request"),
    ];
    for (path, canonical, length, data, answer) in cases {
        let whole = fetch_by("GET", path, canonical, length, data);
        let header = fetch_by("HEAD", path, canonical, length, data);
        let (start, rest) = whole.split_once("\r\n\r\n").unwrap();
        assert_eq!(status(&whole), format!("HTTP/1.1 {answer}"));
        assert_eq!(header, format!("{start}\r\n\r\n"));
        assert!(header.contains(&format!("\r\nContent-Length: {}\r\n", rest.len())));
    }
}

#[test]
fn every_answer_carries_the_security_headers() {
    for line in ["GET /x", "HEAD /x", "POST /", "GET /repo/my%20repo", "GET /repo/r/HEAD"] {
        let reply = ask(line);
        for header in [
            "\r\nX-Content-Type-Options: nosniff\r\n",
            "\r\nContent-Security-Policy: default-src 'none'",
            "\r\nReferrer-Policy: no-referrer\r\n",
            "\r\nX-Frame-Options: DENY\r\n",
        ] {
            assert!(reply.contains(header), "{line}");
        }
    }
}

// ---------------------------------------------------------------------------
// What answers depend on

#[test]
fn pages_without_objects_need_none() {
    let app = App::new(config(None));
    for page in ["HEAD", "info/refs", "objects/info/packs", "diff", "other"] {
        let input = format!("GET /repo/x/{page} HTTP/1.1\r\n\r\n");
        let mut without = sample();
        without.files.loose.clear();
        for pack in &mut without.files.packs {
            pack.data = None;
        }
        assert_eq!(
            app.respond(input.as_bytes(), site(without)),
            app.respond(input.as_bytes(), site(sample()))
        );
    }
}

#[test]
fn the_index_needs_descriptions_only() {
    let full = RootEntry {
        name: Some("a".to_string()),
        candidate: sample(),
    };
    let mut short = full.clone();
    short.candidate.files = no_files();
    short.candidate.files.description = full.candidate.files.description.clone();
    assert_eq!(index("GET /", Some(vec![full])), index("GET /", Some(vec![short])));
}

#[test]
fn refusals_tell_nothing_of_the_repository() {
    let app = App::new(config(None));
    let mut empty = sample();
    empty.files = no_files();
    for line in ["tree?rev=-x", "blob?path=..", "commit?id=a:b", "search?q=%7f"] {
        let input = format!("GET /repo/x/{line} HTTP/1.1\r\n\r\n");
        assert_eq!(
            app.respond(input.as_bytes(), site(empty.clone())),
            app.respond(input.as_bytes(), site(sample()))
        );
    }
}

#[test]
fn parts_and_texts_are_told_apart() {
    let parts = rsgit::text::split_at_char("a//b", '/');
    assert_eq!(parts, ["a", "", "b"]);
    assert_eq!(rsgit::text::join_strings(&parts, "/"), "a//b");
    assert_eq!(rsgit::text::join_strings(&[], "/"), "");
    assert_eq!(rsgit::text::strip_all_prefixes("refs/refs/x", "refs/"), "x");
}
