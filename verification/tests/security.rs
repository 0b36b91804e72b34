use rsgit::security::{
    has_control_chars, safe_clone_file_path, safe_git_path, safe_git_rev, safe_host,
    safe_http_clone_url, safe_repo_name,
};

#[test]
fn rejects_option_like_revisions() {
    assert!(!safe_git_rev("--help"));
    assert!(!safe_git_rev("-r"));
    assert!(safe_git_rev("HEAD"));
    assert!(safe_git_rev("main"));
}

#[test]
fn rejects_parent_paths() {
    assert!(!safe_git_path("../secret"));
    assert!(!safe_git_path("a/../secret"));
    assert!(safe_git_path("src/main.rs"));
}

#[test]
fn allows_only_git_object_clone_paths() {
    assert!(safe_clone_file_path(
        "objects/ab/01234567890123456789012345678901234567"
    ));
    assert!(safe_clone_file_path("objects/pack/pack-abc123.pack"));
    assert!(!safe_clone_file_path("config"));
    assert!(!safe_clone_file_path("objects/../../config"));
}

#[test]
fn repository_names_are_single_safe_segments() {
    assert!(safe_repo_name("golpher"));
    assert!(!safe_repo_name("../secret"));
    assert!(!safe_repo_name("nested/repo"));
}

#[test]
fn clone_paths_are_limited_to_git_objects() {
    assert!(safe_clone_file_path(
        "objects/ab/01234567890123456789012345678901234567"
    ));
    assert!(safe_clone_file_path("objects/pack/pack-abc123.pack"));
    assert!(!safe_clone_file_path("config"));
}

#[test]
fn repository_names_hold_no_dots_or_controls() {
    assert!(!safe_repo_name(""));
    assert!(!safe_repo_name("."));
    assert!(!safe_repo_name(".."));
    assert!(!safe_repo_name("a..b"));
    assert!(!safe_repo_name("a\\b"));
    assert!(!safe_repo_name("a\u{7f}b"));
    assert!(safe_repo_name("a.b"));
    assert!(safe_repo_name("größe"));
}

#[test]
fn control_characters_are_seen() {
    assert!(has_control_chars("a\tb"));
    assert!(has_control_chars("\u{85}"));
    assert!(!has_control_chars("a b\u{a0}"));
}

#[test]
fn git_paths_name_files_only() {
    assert!(safe_git_path(""));
    assert!(!safe_git_path("/"));
    assert!(!safe_git_path("/etc"));
    assert!(!safe_git_path("a//b"));
    assert!(!safe_git_path("a/"));
    assert!(!safe_git_path("./a"));
    assert!(!safe_git_path("HEAD:a"));
    assert!(!safe_git_path("a\\b"));
    assert!(!safe_git_path("a\0b"));
    assert!(safe_git_path("...a/..b"));
}

#[test]
fn revisions_have_a_length_and_an_alphabet() {
    assert!(safe_git_rev(&"a".repeat(128)));
    assert!(!safe_git_rev(&"a".repeat(129)));
    assert!(!safe_git_rev(""));
    assert!(!safe_git_rev("a..b"));
    assert!(!safe_git_rev("a b"));
    assert!(!safe_git_rev("HEAD~1"));
    assert!(!safe_git_rev("é"));
    assert!(safe_git_rev("refs/heads/a_b-c.1"));
}

#[test]
fn clone_paths_have_two_shapes() {
    assert!(safe_clone_file_path("objects/pack/pack-1.idx"));
    assert!(!safe_clone_file_path("objects/pack/pack-1.rev"));
    assert!(!safe_clone_file_path("objects/pack/pack_1.pack"));
    assert!(!safe_clone_file_path("objects/pack/other-1.pack"));
    assert!(!safe_clone_file_path("objects/info/packs"));
    assert!(!safe_clone_file_path("objects/zz/01234567890123456789012345678901234567"));
    assert!(!safe_clone_file_path("objects/ab/0123456789012345678901234567890123456"));
    assert!(!safe_clone_file_path("/objects/pack/pack-1.idx"));
}

#[test]
fn hosts_and_urls_are_bounded() {
    assert!(safe_host("localhost:8080"));
    assert!(safe_host("[::1]:80"));
    assert!(safe_host(&"a".repeat(255)));
    assert!(!safe_host(&"a".repeat(256)));
    assert!(!safe_host(""));
    assert!(!safe_host("a/b"));
    assert!(!safe_host("a\"b"));
    assert!(safe_http_clone_url("https://git.example.com/repo/x"));
    assert!(safe_http_clone_url("http://h"));
    assert!(!safe_http_clone_url("file:///srv/git"));
    assert!(!safe_http_clone_url("https://a b"));
    assert!(!safe_http_clone_url("https://a\nb"));
    assert!(!safe_http_clone_url(&format!("https://{}", "a".repeat(505))));
    assert!(safe_http_clone_url(&format!("https://{}", "a".repeat(504))));
}
