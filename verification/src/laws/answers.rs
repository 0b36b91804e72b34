//! Answers: what a client is told when there is nothing to show, and the lists that
//! need no repository to be found first.

use vstd::prelude::*;
use vstd::utf8::*;
use crate::app::session::{self, FileRequestView, SiteView, StepView};
use crate::app::{clone, index};
use crate::config::ConfigView;
use crate::laws::pages::{self, carries, shows};
use crate::laws::requests::{is_word, request_text};
use crate::laws::serving::{self, can_be_sent, get, is_repository, read_as, repo_path};
use crate::laws::{admission, requests, texts};
use crate::numbers;
use crate::repo::{self, LocationView, RepoView};
use crate::security;
use crate::text;

verus! {

// ---------------------------------------------------------------------------
// Short answers

/// True when a step sends a short answer in plain text.
pub open spec fn answers(step: StepView, status: Seq<char>, words: Seq<char>) -> bool {
    step matches StepView::Send(bytes) && carries(
        bytes,
        status,
        "text/plain; charset=utf-8"@,
        encode_utf8(words),
    )
}

/// True when a step sends a page.
pub open spec fn sends_page(
    step: StepView,
    status: Seq<char>,
    title: Seq<char>,
    body: Seq<char>,
) -> bool {
    exists|page: Seq<char>|
        step == StepView::Send(#[trigger] encode_utf8(page)) && shows(page, status, title, body)
}

proof fn lemma_status(status: u16, text: Seq<char>, reason: Seq<char>, words: Seq<char>)
    requires
        numbers::decimal(status as nat) + " "@ + reason == text,
    ensures
        answers(StepView::Send(clone::plain_response(status, reason, words)), text, words),
{
    pages::law_response_carries_its_bytes(
        status,
        reason,
        "text/plain; charset=utf-8"@,
        encode_utf8(words),
    );
}

proof fn lemma_codes()
    ensures
        numbers::decimal(400) + " "@ + "Bad Request"@ == "400 Bad Request"@,
        numbers::decimal(403) + " "@ + "Forbidden"@ == "403 Forbidden"@,
        numbers::decimal(404) + " "@ + "Not Found"@ == "404 Not Found"@,
        numbers::decimal(405) + " "@ + "Method Not Allowed"@ == "405 Method Not Allowed"@,
        numbers::decimal(413) + " "@ + "Payload Too Large"@ == "413 Payload Too Large"@,
{
    reveal_strlit(" ");
    reveal_strlit("Bad Request");
    reveal_strlit("400 Bad Request");
    reveal_strlit("Forbidden");
    reveal_strlit("403 Forbidden");
    reveal_strlit("Not Found");
    reveal_strlit("404 Not Found");
    reveal_strlit("Method Not Allowed");
    reveal_strlit("405 Method Not Allowed");
    reveal_strlit("Payload Too Large");
    reveal_strlit("413 Payload Too Large");
    reveal_with_fuel(numbers::decimal, 4);
    assert(numbers::decimal(400) + " "@ + "Bad Request"@ =~= "400 Bad Request"@);
    assert(numbers::decimal(403) + " "@ + "Forbidden"@ =~= "403 Forbidden"@);
    assert(numbers::decimal(404) + " "@ + "Not Found"@ =~= "404 Not Found"@);
    assert(numbers::decimal(405) + " "@ + "Method Not Allowed"@ =~= "405 Method Not Allowed"@);
    assert(numbers::decimal(413) + " "@ + "Payload Too Large"@ =~= "413 Payload Too Large"@);
}

/// Nothing received, nothing sent; a first line of one or two words is no request
/// and is refused, and so is a method other than `GET` and `HEAD`.
pub proof fn law_other_requests_are_refused(
    config: ConfigView,
    site: SiteView,
    line: Seq<char>,
    second: Seq<char>,
    method: Seq<char>,
    target: Seq<char>,
    host: Seq<char>,
)
    requires
        is_word(line),
        is_word(second),
        is_word(method),
        is_word(target),
        can_be_sent(Seq::empty(), host),
        method != "GET"@ && method != "HEAD"@,
    ensures
        session::last_step(config, Seq::empty(), site) == StepView::Close,
        answers(
            session::last_step(config, encode_utf8(line), site),
            "400 Bad Request"@,
            "bad request"@,
        ),
        answers(
            session::last_step(config, encode_utf8(line + seq![' '] + second), site),
            "400 Bad Request"@,
            "bad request"@,
        ),
        answers(
            session::last_step(
                config,
                encode_utf8(request_text(method, target, "HTTP/1.1"@, host)),
                site,
            ),
            "405 Method Not Allowed"@,
            "method not allowed"@,
        ),
{
    reveal_strlit("HTTP/1.1");
    lemma_codes();
    lemma_status(400, "400 Bad Request"@, "Bad Request"@, "bad request"@);
    lemma_status(
        405,
        "405 Method Not Allowed"@,
        "Method Not Allowed"@,
        "method not allowed"@,
    );
    assert(is_word("HTTP/1.1"@));
    let raw = request_text(method, target, "HTTP/1.1"@, host);
    requests::law_request_is_read(method, target, "HTTP/1.1"@, host);
    encode_utf8_valid_utf8(raw);
    encode_utf8_decode_utf8(raw);
    text::lemma_scalar_bytes(raw[0]);
    requests::lemma_word_in_line(line);
    requests::lemma_word_in_line(second);
    requests::lemma_words_one(line);
    requests::lemma_words_one(second);
    requests::lemma_words_cons(line, second);
    lemma_one_line_text(line);
    let two = line + seq![' '] + second;
    assert forall|i: int| 0 <= i < two.len() implies two[i] != '\n' by {
        if i < line.len() {
            assert(two[i] == line[i]);
            assert(line.contains(line[i]));
        } else if i > line.len() {
            assert(two[i] == second[i - line.len() - 1]);
            assert(second.contains(second[i - line.len() - 1]));
        }
    }
    lemma_one_line_text(two);
}

proof fn lemma_one_line_text(line: Seq<char>)
    requires
        line.len() > 0,
        !line.contains('\n'),
    ensures
        encode_utf8(line).len() > 0,
        text::lossy(encode_utf8(line)) == line,
        text::lines(line) == seq![line],
{
    texts::law_line_ends(line, Seq::empty());
    encode_utf8_valid_utf8(line);
    encode_utf8_decode_utf8(line);
    text::lemma_scalar_bytes(line[0]);
}

// ---------------------------------------------------------------------------
// Pages without a repository

/// The root of the site is the list of the repositories that stand in the root
/// directory; the list is empty when that cannot be read.
pub proof fn law_list_is_served(
    config: ConfigView,
    site: SiteView,
    query: Seq<char>,
    host: Seq<char>,
)
    requires
        can_be_sent(query, host),
    ensures
        session::last_step(config, get("/"@, query, host), site) == StepView::Send(
            encode_utf8(
                index::index_page(
                    match site.entries {
                        Some(entries) => repo::repos_in(config.repo_root, entries),
                        None => Seq::<RepoView>::empty(),
                    },
                    read_as("/"@, query, host),
                ),
            ),
        ),
{
    reveal_strlit("/");
    reveal_strlit("x");
    reveal_strlit("GET");
    reveal_strlit("HEAD");
    assert("GET"@.len() == 3 && "HEAD"@.len() == 4);
    assert(!"x"@.contains('/'));
    serving::law_other_paths_lead_elsewhere("x"@);
    serving::law_sent_request_is_read("/"@, query, host);
}

/// A path outside `/repo` is not found, and `/repo` itself names no repository.
pub proof fn law_other_paths_are_answered(
    config: ConfigView,
    site: SiteView,
    first: Seq<char>,
    query: Seq<char>,
    host: Seq<char>,
)
    requires
        first.len() > 0,
        !first.contains('/'),
        can_be_sent(query, host),
    ensures
        first != "repo"@ ==> sends_page(
            session::last_step(config, get("/"@ + first, query, host), site),
            "404 Not Found"@,
            "not found"@,
            "<h1>not found</h1>"@,
        ),
        first == "repo"@ ==> sends_page(
            session::last_step(config, get("/"@ + first, query, host), site),
            "400 Bad Request"@,
            "missing repository"@,
            "<h1>missing repository</h1>"@,
        ),
{
    reveal_strlit("/");
    reveal_strlit("GET");
    reveal_strlit("HEAD");
    assert("GET"@.len() == 3 && "HEAD"@.len() == 4);
    serving::law_other_paths_lead_elsewhere(first);
    serving::law_sent_request_is_read("/"@ + first, query, host);
    pages::lemma_missing("not found"@, "<h1>not found</h1>"@);
    pages::lemma_bad("missing repository"@, "<h1>missing repository</h1>"@);
}

/// A name that no repository can have is answered like that of a repository that
/// is not there.
pub proof fn law_odd_name_is_answered(
    config: ConfigView,
    site: SiteView,
    name: Seq<char>,
    rest: Seq<Seq<char>>,
    query: Seq<char>,
    host: Seq<char>,
)
    requires
        name.len() > 0,
        !name.contains('/'),
        !admission::ordinary_name(name),
        rest.len() > 0,
        forall|i: int|
            0 <= i < rest.len() ==> (#[trigger] rest[i]).len() > 0 && !rest[i].contains('/'),
        can_be_sent(query, host),
    ensures
        sends_page(
            session::last_step(config, get(repo_path(name, rest), query, host), site),
            "404 Not Found"@,
            "repository not found"@,
            "<h1>repository not found</h1>"@,
        ),
{
    reveal_strlit("GET");
    reveal_strlit("HEAD");
    reveal_strlit("/repo/");
    assert("GET"@.len() == 3 && "HEAD"@.len() == 4);
    admission::law_ordinary_names_are_accepted(name);
    serving::law_path_names_repository_and_rest(name, rest);
    serving::law_sent_request_is_read(repo_path(name, rest), query, host);
    pages::lemma_missing("repository not found"@, "<h1>repository not found</h1>"@);
}

/// A page that a repository does not have is not found.
pub proof fn law_unknown_page_is_answered(
    config: ConfigView,
    site: SiteView,
    name: Seq<char>,
    page: Seq<char>,
    query: Seq<char>,
    host: Seq<char>,
    l: LocationView,
    bare: bool,
)
    requires
        admission::ordinary_name(name),
        page.len() > 0,
        !page.contains('/'),
        !serving::is_page_name(page),
        page != "HEAD"@ && page != "info"@ && page != "objects"@,
        can_be_sent(query, host),
        site.candidate.location == Some(l),
        is_repository(config.repo_root, l, bare),
    ensures
        sends_page(
            session::last_step(config, get(repo_path(name, seq![page]), query, host), site),
            "404 Not Found"@,
            "not found"@,
            "<h1>not found</h1>"@,
        ),
{
    reveal_strlit("GET");
    reveal_strlit("HEAD");
    let rest = seq![page];
    assert("GET"@.len() == 3 && "HEAD"@.len() == 4);
    admission::law_ordinary_names_are_accepted(name);
    serving::law_request_leads_to_repository(config, name, rest, query, host);
    serving::law_path_names_repository_and_rest(name, rest);
    serving::law_repository_is_recognised(config.repo_root, name, site.candidate, l, bare);
    serving::law_page_is_told_by_its_first_part(page, rest);
    pages::lemma_missing("not found"@, "<h1>not found</h1>"@);
}

// ---------------------------------------------------------------------------
// Files for a clone

/// The step that starts the way of a file that a clone asks for.
pub open spec fn file_step(
    git_dir: Seq<Seq<char>>,
    clone_path: Seq<char>,
    path: Seq<Seq<char>>,
) -> FileRequestView {
    FileRequestView { head_only: false, git_dir, clone_path, path }
}

/// A file outside the Git directory is forbidden, one that is too long is not
/// sent, and one that is not there is not found.
pub proof fn law_file_is_refused_for_a_reason(
    config: ConfigView,
    git_dir: Seq<Seq<char>>,
    clone_path: Seq<char>,
    path: Seq<Seq<char>>,
    canonical: Seq<Seq<char>>,
    length: u64,
)
    ensures
        ({
            let file = file_step(git_dir, clone_path, path);
            &&& answers(session::after_resolve(file, None), "404 Not Found"@, "not found"@)
            &&& (forall|more: Seq<Seq<char>>| canonical != #[trigger] (git_dir + more)) ==> answers(
                session::after_resolve(file, Some(canonical)),
                "403 Forbidden"@,
                "forbidden"@,
            )
            &&& (exists|more: Seq<Seq<char>>| canonical == #[trigger] (git_dir + more))
                ==> session::after_resolve(file, Some(canonical)) == StepView::Measure(
                file_step(git_dir, clone_path, canonical),
            )
            &&& answers(session::after_measure(config, file, None), "404 Not Found"@, "not found"@)
            &&& length > config.max_clone_file_bytes ==> answers(
                session::after_measure(config, file, Some(length)),
                "413 Payload Too Large"@,
                "too large"@,
            )
            &&& length <= config.max_clone_file_bytes ==> session::after_measure(
                config,
                file,
                Some(length),
            ) == StepView::Read(file)
            &&& answers(session::after_read(file, None), "404 Not Found"@, "not found"@)
        }),
{
    lemma_codes();
    lemma_status(404, "404 Not Found"@, "Not Found"@, "not found"@);
    lemma_status(403, "403 Forbidden"@, "Forbidden"@, "forbidden"@);
    lemma_status(413, "413 Payload Too Large"@, "Payload Too Large"@, "too large"@);
    if exists|more: Seq<Seq<char>>| canonical == #[trigger] (git_dir + more) {
        let more = choose|more: Seq<Seq<char>>| canonical == #[trigger] (git_dir + more);
        assert((git_dir + more).take(git_dir.len() as int) =~= git_dir);
    }
    if repo::within(git_dir, canonical) {
        let more = canonical.skip(git_dir.len() as int);
        assert(canonical =~= git_dir + more);
    }
}

/// A path below `objects` that is none of an object's or a pack's is refused.
pub proof fn law_other_files_are_refused(
    config: ConfigView,
    site: SiteView,
    name: Seq<char>,
    rest: Seq<Seq<char>>,
    query: Seq<char>,
    host: Seq<char>,
    l: LocationView,
    bare: bool,
)
    requires
        admission::ordinary_name(name),
        can_be_sent(query, host),
        site.candidate.location == Some(l),
        is_repository(config.repo_root, l, bare),
        text::has_prefix(text::join(rest, "/"@), "objects/"@),
        text::join(rest, "/"@) != "objects/info/packs"@,
        !security::clone_path_ok(text::join(rest, "/"@)),
        rest.len() > 0,
        forall|i: int|
            0 <= i < rest.len() ==> (#[trigger] rest[i]).len() > 0 && !rest[i].contains('/'),
    ensures
        answers(
            session::last_step(config, get(repo_path(name, rest), query, host), site),
            "400 Bad Request"@,
            "bad path"@,
        ),
{
    reveal_strlit("GET");
    reveal_strlit("HEAD");
    reveal_strlit("info/refs");
    reveal_strlit("objects/");
    let path = text::join(rest, "/"@);
    assert("GET"@.len() == 3 && "HEAD"@.len() == 4);
    assert(path[0] == 'o') by {
        assert(path.take(8)[0] == path[0]);
        assert("objects/"@[0] == 'o');
    }
    assert("HEAD"@[0] == 'H' && "info/refs"@[0] == 'i');
    admission::law_ordinary_names_are_accepted(name);
    serving::law_repository_is_recognised(config.repo_root, name, site.candidate, l, bare);
    serving::law_request_leads_to_repository(config, name, rest, query, host);
    serving::law_path_names_repository_and_rest(name, rest);
    lemma_codes();
    lemma_status(400, "400 Bad Request"@, "Bad Request"@, "bad path"@);
}

/// The list of packs that a clone reads has a line for each pack, in order: the
/// letter P, a space and its name.
pub proof fn law_clone_is_told_every_pack(names: Seq<Seq<char>>)
    ensures
        clone::pack_lines(names) == encode_utf8(
            pages::concat(names.map_values(|n: Seq<char>| "P "@ + n + "\n"@)),
        ),
    decreases names.len(),
{
    let lines = names.map_values(|n: Seq<char>| "P "@ + n + "\n"@);
    if names.len() > 0 {
        law_clone_is_told_every_pack(names.drop_last());
        assert(lines.drop_last() =~= names.drop_last().map_values(
            |n: Seq<char>| "P "@ + n + "\n"@,
        ));
        text::lemma_encode_append(pages::concat(lines.drop_last()), lines.last());
    } else {
        assert(lines =~= Seq::empty());
        assert(encode_utf8(pages::concat(lines)) =~= Seq::empty());
    }
}

// ---------------------------------------------------------------------------
// Configuration

/// Where nothing is configured, the server listens on the local port 8080 and
/// serves the current directory, and sends files of up to 128 MiB.
pub proof fn law_defaults_stand_in(value: Seq<char>)
    ensures
        crate::config::value_or(Some(value), crate::config::DEFAULT_ADDR@) == value,
        crate::config::value_or(None, crate::config::DEFAULT_ADDR@) == "127.0.0.1:8080"@,
        crate::config::value_or(Some(value), crate::config::DEFAULT_REPO_ROOT@) == value,
        crate::config::value_or(None, crate::config::DEFAULT_REPO_ROOT@) == "."@,
        crate::config::MAX_CLONE_FILE_BYTES == 128 * 1024 * 1024,
        session::MAX_REQUEST_BYTES == 8192,
{
}

/// An error is told with its kind.
pub proof fn law_errors_are_told(reason: Seq<char>)
    ensures
        crate::error::error_text(crate::error::ErrorView::Io(reason)) == "io error: "@ + reason,
        crate::error::error_text(crate::error::ErrorView::Config(reason))
            == "configuration error: "@ + reason,
{
}

}
