//! One connection, from the bytes received to the bytes sent.
//!
//! The decisions are taken here; what they need of the network and of the file
//! system is asked for by a [`Step`] and handed back to the method that the step
//! names.

use vstd::prelude::*;
use vstd::slice::slice_to_vec;
use vstd::utf8::*;
use crate::app::clone::{
    self, plain, serve_contents, serve_git_head, serve_info_packs, serve_info_refs,
};
use crate::app::index::{self, render_index};
use crate::app::log::{self, render_log, render_search};
use crate::app::objects::{self, render_blob, render_commit, render_diff, render_tree};
use crate::app::parts::{self, notice};
use crate::app::route::{self, page_for, route, Page, Route, RouteView};
use crate::app::summary::{self, render_summary};
use crate::config::{Config, ConfigView};
use crate::http::{self, Request, RequestView};
use crate::repo::{self, lies_within, Candidate, CandidateView, Repo, RepoView, RootEntry, RootEntryView};
use crate::security::{self, safe_clone_file_path};
use crate::text::{self, copy_strings, decode_lossy, join_strings, same, split_at_char};

verus! {

/// How many bytes of a request are looked at.
pub const MAX_REQUEST_BYTES: usize = 8192;

// ---------------------------------------------------------------------------
// Requests for the header alone

/// True when an empty line follows at place `i`.
pub open spec fn blank_at(b: Seq<u8>, i: int) -> bool {
    &&& 0 <= i
    &&& i + 4 <= b.len()
    &&& b[i] == 0x0d
    &&& b[i + 1] == 0x0a
    &&& b[i + 2] == 0x0d
    &&& b[i + 3] == 0x0a
}

/// The first place from `i` on where an empty line follows; the end when there
/// is none.
pub open spec fn blank_from(b: Seq<u8>, i: int) -> int
    decreases b.len() - i,
{
    if i >= b.len() {
        b.len() as int
    } else if blank_at(b, i) {
        i
    } else {
        blank_from(b, i + 1)
    }
}

/// A response without its body: up to the first empty line.
pub open spec fn without_body(response: Seq<u8>) -> Seq<u8> {
    response.take(blank_from(response, 0)) + seq![0x0du8, 0x0a, 0x0d, 0x0a]
}

/// What is sent in answer to a request.
pub open spec fn sent(head_only: bool, response: Seq<u8>) -> Seq<u8> {
    if head_only {
        without_body(response)
    } else {
        response
    }
}

/// Leave out the body when the header alone was asked for.
pub fn finish(head_only: bool, response: Vec<u8>) -> (r: Vec<u8>)
    ensures
        r@ == sent(head_only, response@),
{
    if !head_only {
        return response;
    }
    let mut i: usize = 0;
    while i < response.len() && !(response.len() - i >= 4 && response[i] == 0x0d && response[i + 1]
        == 0x0a && response[i + 2] == 0x0d && response[i + 3] == 0x0a)
        invariant
            i <= response.len(),
            blank_from(response@, i as int) == blank_from(response@, 0),
        decreases response.len() - i,
    {
        i = i + 1;
    }
    let mut out = response;
    out.truncate(i);
    out.push(0x0d);
    out.push(0x0a);
    out.push(0x0d);
    out.push(0x0a);
    assert(out@ =~= without_body(response@));
    out
}

// ---------------------------------------------------------------------------
// Steps

/// A file that a clone asks for, on its way to being served.
#[derive(Clone, Debug)]
pub struct FileRequest {
    /// The header alone was asked for.
    pub head_only: bool,
    /// The components of the repository's Git directory.
    pub git_dir: Vec<String>,
    /// The path as it was asked for, below the Git directory.
    pub clone_path: String,
    /// The components of the path to look at.
    pub path: Vec<String>,
}

/// What a file request holds.
pub struct FileRequestView {
    /// The header alone was asked for.
    pub head_only: bool,
    /// The components of the repository's Git directory.
    pub git_dir: Seq<Seq<char>>,
    /// The path as it was asked for.
    pub clone_path: Seq<char>,
    /// The components of the path to look at.
    pub path: Seq<Seq<char>>,
}

impl View for FileRequest {
    type V = FileRequestView;

    open spec fn view(&self) -> FileRequestView {
        FileRequestView {
            head_only: self.head_only,
            git_dir: text::views(self.git_dir@),
            clone_path: self.clone_path@,
            path: text::views(self.path@),
        }
    }
}

/// What to do next.
#[derive(Clone, Debug)]
pub enum Step {
    /// Close the connection: nothing was received.
    Close,
    /// Send these bytes, and close.
    Send(Vec<u8>),
    /// Read the entries of the repository root, for [`App::listed`].
    List(Request),
    /// Look at the path, for [`App::found`].
    Find(Request, Vec<String>),
    /// Resolve the links in the path, for [`App::resolved`].
    Resolve(FileRequest),
    /// Get the length of the file, for [`App::measured`].
    Measure(FileRequest),
    /// Read the file, for [`App::loaded`].
    Read(FileRequest),
}

/// What a step holds.
pub enum StepView {
    /// Close the connection.
    Close,
    /// Send these bytes.
    Send(Seq<u8>),
    /// Read the entries of the repository root.
    List(RequestView),
    /// Look at the path.
    Find(RequestView, Seq<Seq<char>>),
    /// Resolve the links in the path.
    Resolve(FileRequestView),
    /// Get the length of the file.
    Measure(FileRequestView),
    /// Read the file.
    Read(FileRequestView),
}

impl View for Step {
    type V = StepView;

    open spec fn view(&self) -> StepView {
        match *self {
            Step::Close => StepView::Close,
            Step::Send(b) => StepView::Send(b@),
            Step::List(req) => StepView::List(req@),
            Step::Find(req, path) => StepView::Find(req@, text::views(path@)),
            Step::Resolve(f) => StepView::Resolve(f@),
            Step::Measure(f) => StepView::Measure(f@),
            Step::Read(f) => StepView::Read(f@),
        }
    }
}

/// True when the header alone is asked for.
pub open spec fn is_head(req: RequestView) -> bool {
    req.method == "HEAD"@
}

/// The UTF-8 form of a page, sent in answer to a request.
pub open spec fn send_page(req: RequestView, page: Seq<char>) -> StepView {
    StepView::Send(sent(is_head(req), encode_utf8(page)))
}

/// The page for a path that leads nowhere.
pub open spec fn not_found_page() -> Seq<char> {
    parts::page_response(404, "Not Found"@, "not found"@, "<h1>not found</h1>"@)
}

/// The page for a repository that is not there.
pub open spec fn no_repository_page() -> Seq<char> {
    parts::page_response(
        404,
        "Not Found"@,
        "repository not found"@,
        "<h1>repository not found</h1>"@,
    )
}

/// What a request asks to be done first.
pub open spec fn routed(config: ConfigView, req: RequestView) -> StepView {
    match route::route_of(req.path) {
        RouteView::Index => StepView::List(req),
        RouteView::NotFound => send_page(req, not_found_page()),
        RouteView::MissingRepository => send_page(
            req,
            parts::page_response(
                400,
                "Bad Request"@,
                "missing repository"@,
                "<h1>missing repository</h1>"@,
            ),
        ),
        RouteView::Repository { name, rest } => if security::repo_name_ok(name) {
            StepView::Find(req, config.repo_root.push(name))
        } else {
            send_page(req, no_repository_page())
        },
    }
}

/// What the bytes received ask to be done first.
pub open spec fn received(config: ConfigView, input: Seq<u8>) -> StepView {
    if input.len() == 0 {
        StepView::Close
    } else {
        match http::request_of(text::lossy(input)) {
            None => StepView::Send(clone::plain_response(400, "Bad Request"@, "bad request"@)),
            Some(req) => if req.method == "GET"@ || req.method == "HEAD"@ {
                routed(config, req)
            } else {
                StepView::Send(
                    clone::plain_response(405, "Method Not Allowed"@, "method not allowed"@),
                )
            },
        }
    }
}

/// The page of a repository that is no file of it.
pub open spec fn repo_answer(
    config: ConfigView,
    repo: RepoView,
    page: Page,
    req: RequestView,
) -> Seq<u8> {
    match page {
        Page::Head => clone::head_answer(repo),
        Page::InfoRefs => clone::info_refs_answer(repo),
        Page::InfoPacks => clone::info_packs_answer(repo),
        Page::Summary => encode_utf8(summary::summary_page(config.public_base, repo, req)),
        Page::Log => encode_utf8(log::log_page(repo)),
        Page::Tree => encode_utf8(objects::tree_page(repo, req)),
        Page::Blob => encode_utf8(objects::blob_page(repo, req)),
        Page::Commit => encode_utf8(objects::commit_page(repo, req)),
        Page::Diff => encode_utf8(objects::diff_page(repo, req)),
        Page::Search => encode_utf8(log::search_page(repo, req)),
        _ => encode_utf8(not_found_page()),
    }
}

/// What a request for a file of a repository asks to be done: a path that is not
/// that of an object or pack is refused before anything is looked at.
pub open spec fn file_asked(repo: RepoView, clone_path: Seq<char>, head_only: bool) -> StepView {
    if security::clone_path_ok(clone_path) {
        let git_dir = repo::git_dir_of(repo);
        StepView::Resolve(
            FileRequestView {
                head_only,
                git_dir,
                clone_path,
                path: git_dir + text::split(clone_path, '/'),
            },
        )
    } else {
        StepView::Send(
            sent(head_only, clone::plain_response(400, "Bad Request"@, "bad path"@)),
        )
    }
}

/// What follows once the request's repository has been looked for.
pub open spec fn after_find(
    config: ConfigView,
    req: RequestView,
    candidate: CandidateView,
) -> StepView {
    match route::route_of(req.path) {
        RouteView::Repository { name, rest } => match repo::repo_named(
            config.repo_root,
            name,
            candidate,
        ) {
            Some(repo) => if route::page_of(rest) == Page::File {
                file_asked(repo, text::join(rest, "/"@), is_head(req))
            } else {
                StepView::Send(
                    sent(is_head(req), repo_answer(config, repo, route::page_of(rest), req)),
                )
            },
            None => send_page(req, no_repository_page()),
        },
        _ => send_page(req, not_found_page()),
    }
}

/// What follows once the root has been read.
pub open spec fn after_list(
    config: ConfigView,
    req: RequestView,
    entries: Option<Seq<RootEntryView>>,
) -> StepView {
    let repos = match entries {
        Some(v) => repo::repos_in(config.repo_root, v),
        None => Seq::empty(),
    };
    send_page(req, index::index_page(repos, req))
}

/// What follows once a file's path has been resolved: it must still lie in the
/// Git directory.
pub open spec fn after_resolve(
    file: FileRequestView,
    canonical: Option<Seq<Seq<char>>>,
) -> StepView {
    match canonical {
        None => StepView::Send(
            sent(file.head_only, clone::plain_response(404, "Not Found"@, "not found"@)),
        ),
        Some(path) => if repo::within(file.git_dir, path) {
            StepView::Measure(FileRequestView { path, ..file })
        } else {
            StepView::Send(
                sent(file.head_only, clone::plain_response(403, "Forbidden"@, "forbidden"@)),
            )
        },
    }
}

/// What follows once a file's length is known.
pub open spec fn after_measure(
    config: ConfigView,
    file: FileRequestView,
    length: Option<u64>,
) -> StepView {
    match length {
        None => StepView::Send(
            sent(file.head_only, clone::plain_response(404, "Not Found"@, "not found"@)),
        ),
        Some(n) => if n > config.max_clone_file_bytes {
            StepView::Send(
                sent(
                    file.head_only,
                    clone::plain_response(413, "Payload Too Large"@, "too large"@),
                ),
            )
        } else {
            StepView::Read(file)
        },
    }
}

/// What follows once a file has been read.
pub open spec fn after_read(file: FileRequestView, contents: Option<Seq<u8>>) -> StepView {
    StepView::Send(sent(file.head_only, clone::file_answer(file.clone_path, contents)))
}

// ---------------------------------------------------------------------------
// A whole connection

/// What the file system says to the questions of a connection.
#[derive(Clone, Debug)]
pub struct Site {
    /// The entries of the repository root, if it can be read.
    pub entries: Option<Vec<RootEntry>>,
    /// What stands at the path of the repository asked for.
    pub candidate: Candidate,
    /// The resolved path of the file asked for, if there is one.
    pub canonical: Option<Vec<String>>,
    /// The length of that file, if it can be had.
    pub length: Option<u64>,
    /// The contents of that file, if it can be read.
    pub contents: Option<Vec<u8>>,
}

/// What a site holds.
pub struct SiteView {
    /// The entries of the repository root.
    pub entries: Option<Seq<RootEntryView>>,
    /// What stands at the path of the repository asked for.
    pub candidate: CandidateView,
    /// The resolved path of the file asked for.
    pub canonical: Option<Seq<Seq<char>>>,
    /// The length of that file.
    pub length: Option<u64>,
    /// The contents of that file.
    pub contents: Option<Seq<u8>>,
}

impl View for Site {
    type V = SiteView;

    open spec fn view(&self) -> SiteView {
        SiteView {
            entries: match self.entries {
                Some(v) => Some(repo::root_entry_views(v@)),
                None => None,
            },
            candidate: self.candidate@,
            canonical: match self.canonical {
                Some(p) => Some(text::views(p@)),
                None => None,
            },
            length: self.length,
            contents: match self.contents {
                Some(b) => Some(b@),
                None => None,
            },
        }
    }
}

/// The step that follows a step, given what the file system says.
pub open spec fn next_step(config: ConfigView, step: StepView, site: SiteView) -> StepView {
    match step {
        StepView::Close => step,
        StepView::Send(_) => step,
        StepView::List(req) => after_list(config, req, site.entries),
        StepView::Find(req, _) => after_find(config, req, site.candidate),
        StepView::Resolve(file) => after_resolve(file, site.canonical),
        StepView::Measure(file) => after_measure(config, file, site.length),
        StepView::Read(file) => after_read(file, site.contents),
    }
}

/// Where a connection ends that starts with the bytes received: five steps are
/// the most there are.
pub open spec fn last_step(config: ConfigView, input: Seq<u8>, site: SiteView) -> StepView {
    let first = received(config, input);
    let second = next_step(config, first, site);
    let third = next_step(config, second, site);
    let fourth = next_step(config, third, site);
    next_step(config, fourth, site)
}

// ---------------------------------------------------------------------------
// The application

/// rsgit application state.
pub struct App {
    config: Config,
}

impl View for App {
    type V = ConfigView;

    closed spec fn view(&self) -> ConfigView {
        self.config@
    }
}

/// The UTF-8 form of a page, without its body when the header alone is wanted.
fn send_text(head_only: bool, page: String) -> (r: Step)
    ensures
        r@ == StepView::Send(sent(head_only, encode_utf8(page@))),
{
    Step::Send(finish(head_only, slice_to_vec(page.as_str().as_bytes())))
}

/// A short answer in plain text.
fn send_plain(head_only: bool, status: u16, reason: &str, body: &str) -> (r: Step)
    ensures
        r@ == StepView::Send(sent(head_only, clone::plain_response(status, reason@, body@))),
{
    Step::Send(finish(head_only, plain(status, reason, body)))
}

impl App {
    /// Create an application with immutable configuration.
    pub fn new(config: Config) -> (r: App)
        ensures
            r@ == config@,
    {
        App { config }
    }

    /// The configuration.
    pub fn config(&self) -> (r: &Config)
        ensures
            r@ == self@,
    {
        &self.config
    }

    /// Begin with the bytes received.
    pub fn receive(&self, input: &[u8]) -> (r: Step)
        ensures
            r@ == received(self@, input@),
    {
        if input.len() == 0 {
            return Step::Close;
        }
        let raw = decode_lossy(input);
        match http::parse(raw.as_str()) {
            None => Step::Send(plain(400, "Bad Request", "bad request")),
            Some(req) => if same(req.method(), "GET") || same(req.method(), "HEAD") {
                self.route_request(req)
            } else {
                Step::Send(plain(405, "Method Not Allowed", "method not allowed"))
            },
        }
    }

    /// Decide what a request asks to be done first.
    pub fn route_request(&self, req: Request) -> (r: Step)
        ensures
            r@ == routed(self@, req@),
    {
        let head_only: bool = same(req.method(), "HEAD");
        match route(req.path()) {
            Route::Index => Step::List(req),
            Route::NotFound => send_text(
                head_only,
                notice(404, "Not Found", "not found", "<h1>not found</h1>"),
            ),
            Route::MissingRepository => send_text(
                head_only,
                notice(400, "Bad Request", "missing repository", "<h1>missing repository</h1>"),
            ),
            Route::Repository { name, rest: _ } => match repo::find_path(
                &self.config,
                name.as_str(),
            ) {
                Some(path) => Step::Find(req, path),
                None => send_text(
                    head_only,
                    notice(
                        404,
                        "Not Found",
                        "repository not found",
                        "<h1>repository not found</h1>",
                    ),
                ),
            },
        }
    }

    /// Go on with the entries of the root, or `None` when it cannot be read.
    pub fn listed(&self, req: Request, entries: Option<Vec<RootEntry>>) -> (r: Step)
        ensures
            r@ == after_list(
                self@,
                req@,
                match entries {
                    Some(v) => Some(repo::root_entry_views(v@)),
                    None => None,
                },
            ),
    {
        let head_only: bool = same(req.method(), "HEAD");
        let repos = repo::list(&self.config, entries);
        assert(entries is None ==> repo::repo_views(repos@) =~= Seq::empty());
        send_text(head_only, render_index(repos, &req))
    }

    /// Go on with what stands at the repository's path.
    pub fn found(&self, req: Request, candidate: Candidate) -> (r: Step)
        ensures
            r@ == after_find(self@, req@, candidate@),
    {
        let head_only: bool = same(req.method(), "HEAD");
        match route(req.path()) {
            Route::Repository { name, rest } => match repo::find(
                &self.config,
                name.as_str(),
                candidate,
            ) {
                Some(repo) => {
                    let page: Page = page_for(rest.as_slice());
                    if page == Page::File {
                        let clone_path = join_strings(rest.as_slice(), "/");
                        self.serve_git_file(&repo, clone_path, head_only)
                    } else {
                        Step::Send(finish(head_only, self.route_page(&repo, page, &req)))
                    }
                },
                None => send_text(
                    head_only,
                    notice(
                        404,
                        "Not Found",
                        "repository not found",
                        "<h1>repository not found</h1>",
                    ),
                ),
            },
            _ => send_text(
                head_only,
                notice(404, "Not Found", "not found", "<h1>not found</h1>"),
            ),
        }
    }

    /// Render what is asked of a repository, other than one of its files.
    pub fn route_page(&self, repo: &Repo, page: Page, req: &Request) -> (r: Vec<u8>)
        ensures
            r@ == repo_answer(self@, repo@, page, req@),
    {
        let rendered: String = match page {
            Page::Head => return serve_git_head(repo),
            Page::InfoRefs => return serve_info_refs(repo),
            Page::InfoPacks => return serve_info_packs(repo),
            Page::Summary => render_summary(self.config.public_base(), repo, req),
            Page::Log => render_log(repo),
            Page::Tree => render_tree(repo, req),
            Page::Blob => render_blob(repo, req),
            Page::Commit => render_commit(repo, req),
            Page::Diff => render_diff(repo, req),
            Page::Search => render_search(repo, req),
            _ => notice(404, "Not Found", "not found", "<h1>not found</h1>"),
        };
        slice_to_vec(rendered.as_str().as_bytes())
    }

    /// Begin to serve an object or pack file.
    pub fn serve_git_file(&self, repo: &Repo, clone_path: String, head_only: bool) -> (r: Step)
        ensures
            r@ == file_asked(repo@, clone_path@, head_only),
    {
        if !safe_clone_file_path(clone_path.as_str()) {
            return send_plain(head_only, 400, "Bad Request", "bad path");
        }
        let git_dir = repo.git_dir();
        let mut path = copy_strings(git_dir.as_slice());
        let mut below = split_at_char(clone_path.as_str(), '/');
        let ghost tail = below@;
        let ghost start = path@;
        path.append(&mut below);
        assert(text::views(path@) =~= text::views(start) + text::views(tail));
        Step::Resolve(FileRequest { head_only, git_dir, clone_path, path })
    }

    /// Go on with the resolved path of a file, or `None` when there is none.
    pub fn resolved(&self, file: FileRequest, canonical: Option<Vec<String>>) -> (r: Step)
        ensures
            r@ == after_resolve(
                file@,
                match canonical {
                    Some(p) => Some(text::views(p@)),
                    None => None,
                },
            ),
    {
        match canonical {
            None => send_plain(file.head_only, 404, "Not Found", "not found"),
            Some(path) => if lies_within(file.git_dir.as_slice(), path.as_slice()) {
                Step::Measure(
                    FileRequest {
                        head_only: file.head_only,
                        git_dir: file.git_dir,
                        clone_path: file.clone_path,
                        path,
                    },
                )
            } else {
                send_plain(file.head_only, 403, "Forbidden", "forbidden")
            },
        }
    }

    /// Go on with the length of a file, or `None` when it cannot be had.
    pub fn measured(&self, file: FileRequest, length: Option<u64>) -> (r: Step)
        ensures
            r@ == after_measure(self@, file@, length),
    {
        match length {
            None => send_plain(file.head_only, 404, "Not Found", "not found"),
            Some(n) => if n > self.config.max_clone_file_bytes() {
                send_plain(file.head_only, 413, "Payload Too Large", "too large")
            } else {
                Step::Read(file)
            },
        }
    }

    /// Go on with the contents of a file, or `None` when it cannot be read.
    pub fn loaded(&self, file: FileRequest, contents: Option<Vec<u8>>) -> (r: Step)
        ensures
            r@ == after_read(
                file@,
                match contents {
                    Some(b) => Some(b@),
                    None => None,
                },
            ),
    {
        Step::Send(finish(file.head_only, serve_contents(file.clone_path.as_str(), contents)))
    }

    /// Answer the bytes received, given what the file system says to every
    /// question at once; `None` when nothing is sent.
    pub fn respond(&self, input: &[u8], site: Site) -> (r: Option<Vec<u8>>)
        ensures
            r is None <==> input@.len() == 0,
            r is None ==> last_step(self@, input@, site@) is Close,
            r matches Some(b) ==> last_step(self@, input@, site@) == StepView::Send(b@),
    {
        let file: FileRequest = match self.receive(input) {
            Step::Close => return None,
            Step::Send(b) => return Some(b),
            Step::List(req) => match self.listed(req, site.entries) {
                Step::Send(b) => return Some(b),
                _ => return None,
            },
            Step::Find(req, _) => match self.found(req, site.candidate) {
                Step::Send(b) => return Some(b),
                Step::Resolve(file) => file,
                _ => return None,
            },
            _ => return None,
        };
        let measured: FileRequest = match self.resolved(file, site.canonical) {
            Step::Send(b) => return Some(b),
            Step::Measure(file) => file,
            _ => return None,
        };
        let read: FileRequest = match self.measured(measured, site.length) {
            Step::Send(b) => return Some(b),
            Step::Read(file) => file,
            _ => return None,
        };
        match self.loaded(read, site.contents) {
            Step::Send(b) => Some(b),
            _ => None,
        }
    }
}

}
