use rsgit::http::parse;
use rsgit::porcelain::command::{
    blob_arguments, branch_arguments, commit_arguments, diff_arguments, git_arguments,
    failure_report, git_environment, git_output, git_program, log_arguments, read_limited,
    recent_arguments, ref_arguments, search_arguments, tree_arguments, wait_step, Ending, Fault, Limited, Wait,
};
use rsgit::porcelain::index::{describe, render_index};
use rsgit::porcelain::pages::{
    check_search, first_line, join_repo_path, render_blob, render_commit, render_diff, render_log,
    render_search, render_summary, render_tree, serve_info_refs, Search,
};
use rsgit::porcelain::rows::{render_refs, split_columns};
use rsgit::repo::{Repo, RepoFiles};

fn repo(bare: bool) -> Repo {
    Repo::new(
        "a b".to_string(),
        vec!["srv".to_string()],
        bare,
        RepoFiles {
            description: None,
            head: None,
            refs: Vec::new(),
            packed_refs: None,
            loose: Vec::new(),
            packs: Vec::new(),
        },
    )
}

fn ok(text: &str) -> Result<String, String> {
    Ok(text.to_string())
}

fn failed() -> Result<String, String> {
    Err("git command failed".to_string())
}

#[test]
fn outputs_are_kept_up_to_a_limit() {
    let pieces = vec![b"abc".to_vec(), b"def".to_vec()];
    assert_eq!(read_limited(&pieces, 10), (b"abcdef".to_vec(), false));
    assert_eq!(read_limited(&pieces, 6), (b"abcdef".to_vec(), false));
    assert_eq!(read_limited(&pieces, 5), (b"abcde".to_vec(), true));
    assert_eq!(read_limited(&pieces, 3), (b"abc".to_vec(), true));
    assert_eq!(read_limited(&pieces, 0), (Vec::new(), true));
    assert_eq!(read_limited(&Vec::new(), 0), (Vec::new(), false));
    let mut kept = Limited::new(2);
    kept.push(b"x");
    kept.push(b"");
    assert_eq!(kept.finish(), (b"x".to_vec(), false));
}

#[test]
fn commands_end_or_run_too_long() {
    assert!(wait_step(Some(true), u128::MAX) == Wait::Ended(true));
    assert!(wait_step(Some(false), 0) == Wait::Ended(false));
    assert!(wait_step(None, 5_000_000_000) == Wait::Again);
    assert!(wait_step(None, 5_000_000_001) == Wait::TimedOut);
}

fn finished(out: &[u8], truncated: bool, success: bool) -> Ending {
    Ending::Finished {
        out: out.to_vec(),
        truncated,
        success,
    }
}

#[test]
fn outputs_are_text_or_a_reason() {
    assert_eq!(git_output(finished(b"a\xff", false, true)), ok("a\u{fffd}"));
    assert_eq!(git_output(finished(b"a", false, false)), failed());
    assert_eq!(
        git_output(finished(b"a", true, true)),
        Err("git output too large".to_string())
    );
    assert_eq!(
        git_output(Ending::TimedOut),
        Err("git command timed out".to_string())
    );
    for (fault, reason) in [
        (Fault::NoOutput, "missing git stdout"),
        (Fault::NoErrorOutput, "missing git stderr"),
        (Fault::Wait, "git wait failed"),
        (Fault::OutputReader, "git stdout reader failed"),
        (Fault::OutputRead, "git stdout read failed"),
        (Fault::ErrorReader, "git stderr reader failed"),
        (Fault::ErrorRead, "git stderr read failed"),
    ] {
        assert_eq!(git_output(Ending::Broken(fault)), Err(reason.to_string()));
    }
    assert_eq!(
        git_output(Ending::NotStarted("gone".to_string())),
        Err("failed to execute git: gone".to_string())
    );
}

#[test]
fn failures_are_reported_with_the_errors() {
    assert_eq!(
        failure_report("demo", &finished(b"a", false, false), b" fatal: b\xff\n"),
        Some("git command failed for repo demo: fatal: b\u{fffd}".to_string())
    );
    assert_eq!(failure_report("demo", &finished(b"a", false, true), b"x"), None);
    assert_eq!(failure_report("demo", &finished(b"a", true, false), b"x"), None);
    assert_eq!(failure_report("demo", &Ending::TimedOut, b"x"), None);
}

#[test]
fn arguments_say_where_the_repository_is() {
    let args = tree_arguments("main", "src");
    assert_eq!(args, ["ls-tree", "--end-of-options", "main:src"]);
    assert_eq!(tree_arguments("main", "")[2], "main");
    assert_eq!(
        git_arguments(&repo(true), "/srv/a b", &args),
        ["--git-dir", "/srv/a b", "ls-tree", "--end-of-options", "main:src"]
    );
    assert_eq!(git_arguments(&repo(false), "/srv", &[]), ["-C", "/srv"]);
}

#[test]
fn commands_run_in_an_environment_of_their_own() {
    let pairs: Vec<String> = git_environment()
        .into_iter()
        .map(|(name, value)| format!("{name}={value}"))
        .collect();
    assert_eq!(
        pairs,
        [
            "PATH=/usr/bin:/bin:/usr/local/bin",
            "GIT_CONFIG_NOSYSTEM=1",
            "GIT_CONFIG_GLOBAL=/dev/null",
            "GIT_OPTIONAL_LOCKS=0",
            "LC_ALL=C",
        ]
    );
    assert_eq!(git_program(None), "git");
    assert_eq!(git_program(Some("/opt/git".to_string())), "/opt/git");
}

#[test]
fn arguments_of_commands_are_fixed() {
    assert_eq!(blob_arguments("v1", "a"), ["show", "--end-of-options", "v1:a"]);
    assert_eq!(search_arguments("x")[6..8], ["--grep", "x"]);
    assert_eq!(log_arguments()[3], "-50");
    assert_eq!(branch_arguments()[1], "--count=8");
    assert_eq!(recent_arguments()[4], "-10");
    assert_eq!(commit_arguments("x")[4..], ["--end-of-options", "x"]);
    assert_eq!(diff_arguments("x")[1], "--format=");
    assert_eq!(
        ref_arguments(),
        ["for-each-ref", "--format=%(objectname)%09%(refname)"]
    );
}

#[test]
fn lines_are_split_into_columns() {
    assert_eq!(split_columns("a\tb\tc\td", 3), ["a", "b", "c\td"]);
    assert_eq!(split_columns("a", 3), ["a"]);
    assert_eq!(split_columns("a\tb", 1), ["a\tb"]);
    assert!(split_columns("a", 0).is_empty());
    assert_eq!(split_columns("", 2), [""]);
}

#[test]
fn refs_are_marked() {
    assert_eq!(
        render_refs("HEAD, main<, ,"),
        " <span class=\"ref head\">HEAD</span> <span class=\"ref\">main&lt;</span>"
    );
    assert_eq!(render_refs(""), "");
}

#[test]
fn summaries_are_made_of_two_tables() {
    let req = parse("GET / HTTP/1.1\r\nHost: h\r\n").unwrap();
    let page = render_summary(
        None,
        &repo(true),
        &req,
        ok("main\tabc\tAdd & fix\tAnn\t2 days ago\ntoo\tfew"),
        ok("2024-01-02\tabc\tHEAD\tAdd\tAnn\tLee"),
    );
    assert!(page.contains(
        "<tr><td><a href=\"/repo/a%20b/log?rev=main\">main</a></td><td>Add &amp; fix</td><td>Ann</td><td class=\"muted\">2 days ago</td></tr></table></section>"
    ));
    assert!(page.contains(
        "<tr><td>2024-01-02</td><td><a href=\"/repo/a%20b/commit?id=abc\">Add</a> <span class=\"ref head\">HEAD</span></td><td>Ann\tLee</td></tr></table><p><a href=\"/repo/a%20b/log\">[...]</a></p></section>"
    ));
    assert!(page.contains("<div class=\"clone-url\">git clone http://h/repo/a%20b</div>"));
    let empty = render_summary(Some("ftp://x"), &repo(true), &req, failed(), failed());
    assert!(empty.contains("clone URL not configured"));
    assert!(!empty.contains("<tr><td>"));
}

#[test]
fn logs_list_what_the_command_gives() {
    let page = render_log(&repo(true), ok("abc\t2024-01-02\tAnn\tAdd\tit\n"));
    assert!(page.contains("<title>a b log</title>"));
    assert!(page.contains(
        "<tr><td><a href=\"/repo/a%20b/commit?id=abc\">abc</a></td><td>2024-01-02</td><td>Ann</td><td>Add\tit</td></tr>"
    ));
    assert!(!render_log(&repo(true), failed()).contains("<tr><td>"));
}

#[test]
fn searches_are_checked_first() {
    let check = |line: &str| check_search(&repo(true), &parse(line).unwrap());
    match check("GET /?q=+ HTTP/1.1") {
        Search::Answer(page) => assert!(page.contains("Type a commit-message search above.")),
        Search::Run(_) => panic!("nothing to search for"),
    }
    match check("GET /?q=a%00 HTTP/1.1") {
        Search::Answer(page) => assert!(page.contains("<h1>bad search query</h1>")),
        Search::Run(_) => panic!("not refused"),
    }
    match check("GET /?q=+fix+ HTTP/1.1") {
        Search::Run(query) => assert_eq!(query, "fix"),
        Search::Answer(_) => panic!("refused"),
    }
}

#[test]
fn searches_list_what_the_command_gives() {
    let page = render_search(&repo(true), ok("2024-01-02\ta b\tAdd\tAnn"));
    assert!(page.contains(
        "<tr><td>2024-01-02</td><td><a href=\"/repo/a%20b/commit?id=a%20b\">Add</a></td><td>Ann</td></tr>"
    ));
    assert!(!render_search(&repo(true), failed()).contains("<tr><td>"));
}

#[test]
fn trees_list_what_the_command_gives() {
    let req = parse("GET /?rev=v1&path=src HTTP/1.1").unwrap();
    let listing = "100644 blob abc\ta.rs\n040000 tree def\tsub\nbroken\nx y\tz\n";
    let page = render_tree(&repo(true), &req, ok(listing));
    assert!(page.contains(
        "<tr><td>100644</td><td>blob</td><td><a href=\"/repo/a%20b/blob?rev=v1&amp;path=src%2Fa.rs\">a.rs</a></td></tr><tr><td>040000</td><td>tree</td><td><a href=\"/repo/a%20b/tree?rev=v1&amp;path=src%2Fsub\">sub</a></td></tr></table>"
    ));
    let bad = parse("GET /?path=.. HTTP/1.1").unwrap();
    assert!(render_tree(&repo(true), &bad, ok(listing)).contains("<h1>bad path</h1>"));
}

#[test]
fn blobs_show_what_the_command_gives() {
    let req = parse("GET /?path=a.rs HTTP/1.1").unwrap();
    let page = render_blob(&repo(true), &req, ok("1 < 2"));
    assert!(page.contains("<h1>a.rs</h1><pre>1 &lt; 2</pre>"));
    let missing = render_blob(&repo(true), &req, failed());
    assert!(missing.starts_with("HTTP/1.1 404 Not Found\r\n"));
    let empty = parse("GET / HTTP/1.1").unwrap();
    assert!(render_blob(&repo(true), &empty, ok("x")).starts_with("HTTP/1.1 400 Bad Request"));
}

#[test]
fn commits_and_diffs_show_what_the_commands_give() {
    let req = parse("GET /?id=a/b HTTP/1.1").unwrap();
    let shown = render_commit(&repo(true), &req, ok("+ <x>"));
    assert!(shown.contains(
        "<h1>commit a/b</h1><p><a href=\"/repo/a%20b/diff?id=a%2Fb\">diff only</a></p><pre>+ &lt;x&gt;</pre>"
    ));
    assert!(render_commit(&repo(true), &req, failed()).contains("<pre>commit not found</pre>"));
    let diff = render_diff(&repo(true), &req, ok("- y"));
    assert!(diff.contains("<h1>diff a/b</h1><pre>- y</pre>"));
    assert!(render_diff(&repo(true), &req, failed()).contains("<pre>diff not found</pre>"));
    let bad = parse("GET /?id=-x HTTP/1.1").unwrap();
    assert!(render_commit(&repo(true), &bad, ok("")).contains("<h1>bad revision</h1>"));
    assert!(render_diff(&repo(true), &bad, ok("")).contains("<h1>bad revision</h1>"));
}

#[test]
fn indexes_show_described_repositories() {
    let req = parse("GET /?q=tool HTTP/1.1").unwrap();
    let page = render_index(
        vec![
            describe("z".to_string(), ok("\n A tool\nmore")),
            describe("a tool".to_string(), failed()),
            describe("other".to_string(), ok("nothing")),
        ],
        &req,
    );
    assert!(page.contains(
        "<tr><td><a href=\"/repo/a%20tool/summary\">a tool</a></td><td></td></tr><tr><td><a href=\"/repo/z/summary\">z</a></td><td>A tool</td></tr></table>"
    ));
    assert!(!page.contains("other"));
}

#[test]
fn refs_for_a_clone_are_passed_on() {
    assert!(serve_info_refs(ok("abc\trefs/heads/main\n")).ends_with(b"\r\n\r\nabc\trefs/heads/main\n"));
    assert!(serve_info_refs(failed()).ends_with(b"\r\n\r\n"));
}

#[test]
fn paths_and_lines_are_taken_apart() {
    assert_eq!(join_repo_path("", "a"), "a");
    assert_eq!(join_repo_path("x", "a"), "x/a");
    assert_eq!(first_line("a\nb"), "a");
    assert_eq!(first_line(""), "");
}
