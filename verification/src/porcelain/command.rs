//! What a Git command is given, and what its end means.

use vstd::prelude::*;
use vstd::slice::slice_subrange;
use crate::git::bytes::append_bytes;
use crate::repo::{Repo, RepoView};
use crate::text::{self, decode_lossy, trimmed, Class};

verus! {

/// How long a command may run, in nanoseconds.
pub const GIT_TIMEOUT_NANOS: u128 = 5_000_000_000;

/// How much of a command's output is kept, in bytes.
pub const MAX_GIT_OUTPUT_BYTES: usize = 2_097_152;

/// How much of a command's error output is kept, in bytes.
pub const MAX_GIT_ERROR_BYTES: usize = 65_536;

// ---------------------------------------------------------------------------
// Output

/// The first bytes of an output that comes in pieces.
pub struct Limited {
    limit: usize,
    out: Vec<u8>,
    truncated: bool,
}

/// What is kept of an output.
pub struct LimitedView {
    /// How many bytes are kept at most.
    pub limit: nat,
    /// The bytes kept.
    pub out: Seq<u8>,
    /// Some bytes were not kept.
    pub truncated: bool,
}

impl View for Limited {
    type V = LimitedView;

    closed spec fn view(&self) -> LimitedView {
        LimitedView { limit: self.limit as nat, out: self.out@, truncated: self.truncated }
    }
}

/// The first `limit` bytes.
pub open spec fn cut(bytes: Seq<u8>, limit: nat) -> Seq<u8> {
    if bytes.len() <= limit {
        bytes
    } else {
        bytes.take(limit as int)
    }
}

/// True when `l` is what is kept of `all`.
pub open spec fn keeps(l: LimitedView, all: Seq<u8>) -> bool {
    &&& l.out == cut(all, l.limit)
    &&& l.truncated == (all.len() > l.limit)
}

impl Limited {
    /// Nothing yet, of an output of which `limit` bytes are kept.
    pub fn new(limit: usize) -> (r: Limited)
        ensures
            r@.limit == limit,
            r.wf(),
            keeps(r@, Seq::empty()),
    {
        let r = Limited { limit, out: Vec::new(), truncated: false };
        assert(r.out@ =~= Seq::empty());
        r
    }

    /// No more is kept than the limit allows, and nothing is left out before it
    /// is reached.
    pub open spec fn wf(&self) -> bool {
        self@.out.len() <= self@.limit && (self@.truncated ==> self@.out.len() == self@.limit)
    }

    /// Take the next piece of the output.
    pub fn push(&mut self, piece: &[u8])
        requires
            old(self).wf(),
        ensures
            final(self).wf(),
            final(self)@.limit == old(self)@.limit,
            final(self)@.out == cut(old(self)@.out + piece@, old(self)@.limit),
            final(self)@.truncated == (old(self)@.truncated || old(self)@.out.len() + piece@.len()
                > old(self)@.limit),
    {
        let ghost all = self.out@ + piece@;
        let room: usize = self.limit - self.out.len();
        if piece.len() <= room {
            append_bytes(&mut self.out, piece);
        } else {
            let part = slice_subrange(piece, 0, room);
            append_bytes(&mut self.out, part);
            self.truncated = true;
            assert(self.out@ =~= all.take(self.limit as int));
        }
    }

    /// The bytes kept, and whether some were not.
    pub fn finish(self) -> (r: (Vec<u8>, bool))
        ensures
            r.0@ == self@.out,
            r.1 == self@.truncated,
    {
        (self.out, self.truncated)
    }
}

/// The pieces after one another.
pub open spec fn concat(pieces: Seq<Vec<u8>>) -> Seq<u8>
    decreases pieces.len(),
{
    if pieces.len() == 0 {
        Seq::empty()
    } else {
        concat(pieces.drop_last()) + pieces.last()@
    }
}

/// Keep the first `limit` bytes of an output that came in pieces, and tell
/// whether there were more.
pub fn read_limited(pieces: &Vec<Vec<u8>>, limit: usize) -> (r: (Vec<u8>, bool))
    ensures
        r.0@ == cut(concat(pieces@), limit as nat),
        r.1 == (concat(pieces@).len() > limit),
{
    let mut kept = Limited::new(limit);
    let mut i: usize = 0;
    assert(concat(pieces@.take(0)) =~= Seq::empty());
    while i < pieces.len()
        invariant
            i <= pieces.len(),
            kept.wf(),
            kept@.limit == limit,
            keeps(kept@, concat(pieces@.take(i as int))),
        decreases pieces.len() - i,
    {
        let ghost before = kept@;
        let ghost all = concat(pieces@.take(i as int));
        assert(pieces@.take(i + 1).drop_last() =~= pieces@.take(i as int));
        kept.push(pieces[i].as_slice());
        proof {
            let more = all + pieces@[i as int]@;
            assert(concat(pieces@.take(i + 1)) == more);
            assert(cut(before.out + pieces@[i as int]@, limit as nat) =~= cut(more, limit as nat));
        }
        i = i + 1;
    }
    assert(pieces@.take(i as int) =~= pieces@);
    kept.finish()
}

// ---------------------------------------------------------------------------
// The end of a command

/// What to do with a command that was looked at.
#[derive(Clone, Copy, Debug, PartialEq, Eq, Structural)]
pub enum Wait {
    /// It has ended; `true` when it succeeded.
    Ended(bool),
    /// It runs on: look again later.
    Again,
    /// It has run too long: end it.
    TimedOut,
}

/// What to do with a command: `status` says how it ended, if it has.
pub open spec fn wait_for(status: Option<bool>, elapsed_nanos: u128) -> Wait {
    match status {
        Some(success) => Wait::Ended(success),
        None => if elapsed_nanos > GIT_TIMEOUT_NANOS {
            Wait::TimedOut
        } else {
            Wait::Again
        },
    }
}

/// Decide what to do with a command that was looked at.
pub fn wait_step(status: Option<bool>, elapsed_nanos: u128) -> (r: Wait)
    ensures
        r == wait_for(status, elapsed_nanos),
{
    match status {
        Some(success) => Wait::Ended(success),
        None => if elapsed_nanos > GIT_TIMEOUT_NANOS {
            Wait::TimedOut
        } else {
            Wait::Again
        },
    }
}

/// What can go wrong with a command that was started.
#[derive(Clone, Copy, Debug, PartialEq, Eq, Structural)]
pub enum Fault {
    /// Its output cannot be had.
    NoOutput,
    /// Its error output cannot be had.
    NoErrorOutput,
    /// It cannot be waited for.
    Wait,
    /// What reads its output stopped.
    OutputReader,
    /// Its output cannot be read.
    OutputRead,
    /// What reads its error output stopped.
    ErrorReader,
    /// Its error output cannot be read.
    ErrorRead,
}

/// A fault in words.
pub open spec fn fault_text(fault: Fault) -> Seq<char> {
    match fault {
        Fault::NoOutput => "missing git stdout"@,
        Fault::NoErrorOutput => "missing git stderr"@,
        Fault::Wait => "git wait failed"@,
        Fault::OutputReader => "git stdout reader failed"@,
        Fault::OutputRead => "git stdout read failed"@,
        Fault::ErrorReader => "git stderr reader failed"@,
        Fault::ErrorRead => "git stderr read failed"@,
    }
}

/// A fault in words.
pub fn fault_message(fault: Fault) -> (r: String)
    ensures
        r@ == fault_text(fault),
{
    match fault {
        Fault::NoOutput => "missing git stdout".to_owned(),
        Fault::NoErrorOutput => "missing git stderr".to_owned(),
        Fault::Wait => "git wait failed".to_owned(),
        Fault::OutputReader => "git stdout reader failed".to_owned(),
        Fault::OutputRead => "git stdout read failed".to_owned(),
        Fault::ErrorReader => "git stderr reader failed".to_owned(),
        Fault::ErrorRead => "git stderr read failed".to_owned(),
    }
}

/// How a command came out.
#[derive(Clone, Debug)]
pub enum Ending {
    /// It could not be started, for that reason.
    NotStarted(String),
    /// Something went wrong with it.
    Broken(Fault),
    /// It ran too long.
    TimedOut,
    /// It ended: its output, whether some of that is missing, and whether it
    /// succeeded.
    Finished {
        /// The output kept.
        out: Vec<u8>,
        /// Some of the output was not kept.
        truncated: bool,
        /// It succeeded.
        success: bool,
    },
}

/// What a command gives: its output as text, or why there is none. An output of
/// which some is missing is not used.
pub open spec fn output_of(ending: Ending) -> Result<Seq<char>, Seq<char>> {
    match ending {
        Ending::NotStarted(reason) => Err("failed to execute git: "@ + reason@),
        Ending::Broken(fault) => Err(fault_text(fault)),
        Ending::TimedOut => Err("git command timed out"@),
        Ending::Finished { out, truncated, success } => if truncated {
            Err("git output too large"@)
        } else if success {
            Ok(text::lossy(out@))
        } else {
            Err("git command failed"@)
        },
    }
}

/// The characters of an output.
pub open spec fn output_view(r: Result<String, String>) -> Result<Seq<char>, Seq<char>> {
    match r {
        Ok(s) => Ok(s@),
        Err(e) => Err(e@),
    }
}

/// Decide what a command gives.
pub fn git_output(ending: Ending) -> (r: Result<String, String>)
    ensures
        output_view(r) == output_of(ending),
{
    match ending {
        Ending::NotStarted(reason) => {
            let mut message: String = "failed to execute git: ".to_owned();
            message.append(reason.as_str());
            Err(message)
        },
        Ending::Broken(fault) => Err(fault_message(fault)),
        Ending::TimedOut => Err("git command timed out".to_owned()),
        Ending::Finished { out, truncated, success } => if truncated {
            Err("git output too large".to_owned())
        } else if success {
            Ok(decode_lossy(out.as_slice()))
        } else {
            Err("git command failed".to_owned())
        },
    }
}

/// What is reported of a command that ended without success: the repository's
/// name, and what the command wrote as its errors. Of any other end nothing is.
pub open spec fn report_of(name: Seq<char>, ending: Ending, errors: Seq<u8>) -> Option<Seq<char>> {
    match ending {
        Ending::Finished { out: _, truncated: false, success: false } => Some(
            "git command failed for repo "@ + name + ": "@ + text::trim(
                text::lossy(errors),
                Class::Space,
            ),
        ),
        _ => None,
    }
}

/// Decide what is reported of a command in the repository of that name.
pub fn failure_report(name: &str, ending: &Ending, errors: &[u8]) -> (r: Option<String>)
    ensures
        text::opt_view(r) == report_of(name@, *ending, errors@),
{
    match ending {
        Ending::Finished { out: _, truncated: false, success: false } => {
            let said = decode_lossy(errors);
            let said = trimmed(said.as_str(), Class::Space);
            let mut report: String = "git command failed for repo ".to_owned();
            report.append(name);
            report.append(": ");
            report.append(said.as_str());
            Some(report)
        },
        _ => None,
    }
}

// ---------------------------------------------------------------------------
// Program and environment

/// The program to run: the one that is configured, or `git`.
pub fn git_program(configured: Option<String>) -> (r: String)
    ensures
        r@ == (match configured {
            Some(program) => program@,
            None => "git"@,
        }),
{
    match configured {
        Some(program) => program,
        None => "git".to_owned(),
    }
}

/// A variable and its value.
pub open spec fn pair_view(p: (String, String)) -> (Seq<char>, Seq<char>) {
    (p.0@, p.1@)
}

/// The whole environment of a command: nothing of the server's own gets into it,
/// and neither the system's settings nor a user's.
pub fn git_environment() -> (r: Vec<(String, String)>)
    ensures
        r@.map_values(|p: (String, String)| pair_view(p)) == seq![
            ("PATH"@, "/usr/bin:/bin:/usr/local/bin"@),
            ("GIT_CONFIG_NOSYSTEM"@, "1"@),
            ("GIT_CONFIG_GLOBAL"@, "/dev/null"@),
            ("GIT_OPTIONAL_LOCKS"@, "0"@),
            ("LC_ALL"@, "C"@),
        ],
{
    let mut out: Vec<(String, String)> = Vec::new();
    out.push(("PATH".to_owned(), "/usr/bin:/bin:/usr/local/bin".to_owned()));
    out.push(("GIT_CONFIG_NOSYSTEM".to_owned(), "1".to_owned()));
    out.push(("GIT_CONFIG_GLOBAL".to_owned(), "/dev/null".to_owned()));
    out.push(("GIT_OPTIONAL_LOCKS".to_owned(), "0".to_owned()));
    out.push(("LC_ALL".to_owned(), "C".to_owned()));
    assert(out@.map_values(|p: (String, String)| pair_view(p)) =~= seq![
        ("PATH"@, "/usr/bin:/bin:/usr/local/bin"@),
        ("GIT_CONFIG_NOSYSTEM"@, "1"@),
        ("GIT_CONFIG_GLOBAL"@, "/dev/null"@),
        ("GIT_OPTIONAL_LOCKS"@, "0"@),
        ("LC_ALL"@, "C"@),
    ]);
    out
}

// ---------------------------------------------------------------------------
// Arguments

/// The arguments of a command in a repository: where the repository is, then the
/// command's own.
pub open spec fn arguments_of(
    repo: RepoView,
    path: Seq<char>,
    args: Seq<Seq<char>>,
) -> Seq<Seq<char>> {
    seq![
        if repo.bare {
            "--git-dir"@
        } else {
            "-C"@
        },
        path,
    ] + args
}

/// The arguments of a command in the repository at `path`.
pub fn git_arguments(repo: &Repo, path: &str, args: &[String]) -> (r: Vec<String>)
    ensures
        text::views(r@) == arguments_of(repo@, path@, text::views(args@)),
{
    let mut out: Vec<String> = Vec::new();
    if repo.is_bare() {
        out.push("--git-dir".to_owned());
    } else {
        out.push("-C".to_owned());
    }
    out.push(path.to_owned());
    let ghost start = out@;
    let mut more = text::copy_strings(args);
    let ghost tail = more@;
    out.append(&mut more);
    assert(text::views(out@) =~= text::views(start) + text::views(tail));
    assert(text::views(start) =~= seq![
        if repo@.bare {
            "--git-dir"@
        } else {
            "-C"@
        },
        path@,
    ]);
    out
}

/// How a path at a revision is named on the command line.
pub open spec fn object_name(rev: Seq<char>, path: Seq<char>) -> Seq<char> {
    if path.len() == 0 {
        rev
    } else {
        rev + ":"@ + path
    }
}

/// How a path at a revision is named on the command line.
pub fn object_spec(rev: &str, path: &str) -> (r: String)
    ensures
        r@ == object_name(rev@, path@),
{
    let mut out: String = rev.to_owned();
    if !path.is_empty() {
        out.append(":");
        out.append(path);
    }
    out
}

/// The arguments that list a tree.
pub fn tree_arguments(rev: &str, path: &str) -> (r: Vec<String>)
    ensures
        text::views(r@) == seq!["ls-tree"@, "--end-of-options"@, object_name(rev@, path@)],
{
    let mut out: Vec<String> = Vec::new();
    out.push("ls-tree".to_owned());
    out.push("--end-of-options".to_owned());
    out.push(object_spec(rev, path));
    assert(text::views(out@) =~= seq![
        "ls-tree"@,
        "--end-of-options"@,
        object_name(rev@, path@),
    ]);
    out
}

/// The arguments that show a blob.
pub fn blob_arguments(rev: &str, path: &str) -> (r: Vec<String>)
    requires
        path@.len() > 0,
    ensures
        text::views(r@) == seq!["show"@, "--end-of-options"@, rev@ + ":"@ + path@],
{
    let mut out: Vec<String> = Vec::new();
    out.push("show".to_owned());
    out.push("--end-of-options".to_owned());
    out.push(object_spec(rev, path));
    assert(text::views(out@) =~= seq!["show"@, "--end-of-options"@, rev@ + ":"@ + path@]);
    out
}

/// The arguments that search the messages of commits.
pub fn search_arguments(q: &str) -> (r: Vec<String>)
    ensures
        text::views(r@) == seq![
            "log"@,
            "--all"@,
            "--fixed-strings"@,
            "--regexp-ignore-case"@,
            "--date=short"@,
            "--pretty=format:%ad%x09%h%x09%s%x09%an"@,
            "--grep"@,
            q@,
            "-50"@,
        ],
{
    let mut out: Vec<String> = Vec::new();
    out.push("log".to_owned());
    out.push("--all".to_owned());
    out.push("--fixed-strings".to_owned());
    out.push("--regexp-ignore-case".to_owned());
    out.push("--date=short".to_owned());
    out.push("--pretty=format:%ad%x09%h%x09%s%x09%an".to_owned());
    out.push("--grep".to_owned());
    out.push(q.to_owned());
    out.push("-50".to_owned());
    assert(text::views(out@) =~= seq![
        "log"@,
        "--all"@,
        "--fixed-strings"@,
        "--regexp-ignore-case"@,
        "--date=short"@,
        "--pretty=format:%ad%x09%h%x09%s%x09%an"@,
        "--grep"@,
        q@,
        "-50"@,
    ]);
    out
}

/// The arguments that list the newest commits.
pub fn log_arguments() -> (r: Vec<String>)
    ensures
        text::views(r@) == seq![
            "log"@,
            "--date=short"@,
            "--pretty=format:%h%x09%ad%x09%an%x09%s"@,
            "-50"@,
        ],
{
    let mut out: Vec<String> = Vec::new();
    out.push("log".to_owned());
    out.push("--date=short".to_owned());
    out.push("--pretty=format:%h%x09%ad%x09%an%x09%s".to_owned());
    out.push("-50".to_owned());
    assert(text::views(out@) =~= seq![
        "log"@,
        "--date=short"@,
        "--pretty=format:%h%x09%ad%x09%an%x09%s"@,
        "-50"@,
    ]);
    out
}

/// The arguments that list the summary's branches.
pub fn branch_arguments() -> (r: Vec<String>)
    ensures
        text::views(r@) == seq![
            "for-each-ref"@,
            "--count=8"@,
            "--sort=-committerdate"@,
            "--format=%(refname:short)%09%(objectname:short)%09%(subject)%09%(authorname)%09%(committerdate:relative)"@,
            "refs/heads"@,
        ],
{
    let mut out: Vec<String> = Vec::new();
    out.push("for-each-ref".to_owned());
    out.push("--count=8".to_owned());
    out.push("--sort=-committerdate".to_owned());
    out.push(
        "--format=%(refname:short)%09%(objectname:short)%09%(subject)%09%(authorname)%09%(committerdate:relative)".to_owned(),
    );
    out.push("refs/heads".to_owned());
    assert(text::views(out@) =~= seq![
        "for-each-ref"@,
        "--count=8"@,
        "--sort=-committerdate"@,
        "--format=%(refname:short)%09%(objectname:short)%09%(subject)%09%(authorname)%09%(committerdate:relative)"@,
        "refs/heads"@,
    ]);
    out
}

/// The arguments that list the summary's commits.
pub fn recent_arguments() -> (r: Vec<String>)
    ensures
        text::views(r@) == seq![
            "log"@,
            "--decorate=short"@,
            "--date=short"@,
            "--pretty=format:%ad%x09%h%x09%D%x09%s%x09%an"@,
            "-10"@,
        ],
{
    let mut out: Vec<String> = Vec::new();
    out.push("log".to_owned());
    out.push("--decorate=short".to_owned());
    out.push("--date=short".to_owned());
    out.push("--pretty=format:%ad%x09%h%x09%D%x09%s%x09%an".to_owned());
    out.push("-10".to_owned());
    assert(text::views(out@) =~= seq![
        "log"@,
        "--decorate=short"@,
        "--date=short"@,
        "--pretty=format:%ad%x09%h%x09%D%x09%s%x09%an"@,
        "-10"@,
    ]);
    out
}

/// The arguments that show a commit with its changes.
pub fn commit_arguments(id: &str) -> (r: Vec<String>)
    ensures
        text::views(r@) == seq![
            "show"@,
            "--stat"@,
            "--patch"@,
            "--find-renames"@,
            "--end-of-options"@,
            id@,
        ],
{
    let mut out: Vec<String> = Vec::new();
    out.push("show".to_owned());
    out.push("--stat".to_owned());
    out.push("--patch".to_owned());
    out.push("--find-renames".to_owned());
    out.push("--end-of-options".to_owned());
    out.push(id.to_owned());
    assert(text::views(out@) =~= seq![
        "show"@,
        "--stat"@,
        "--patch"@,
        "--find-renames"@,
        "--end-of-options"@,
        id@,
    ]);
    out
}

/// The arguments that show the changes of a commit alone.
pub fn diff_arguments(id: &str) -> (r: Vec<String>)
    ensures
        text::views(r@) == seq![
            "show"@,
            "--format="@,
            "--patch"@,
            "--find-renames"@,
            "--end-of-options"@,
            id@,
        ],
{
    let mut out: Vec<String> = Vec::new();
    out.push("show".to_owned());
    out.push("--format=".to_owned());
    out.push("--patch".to_owned());
    out.push("--find-renames".to_owned());
    out.push("--end-of-options".to_owned());
    out.push(id.to_owned());
    assert(text::views(out@) =~= seq![
        "show"@,
        "--format="@,
        "--patch"@,
        "--find-renames"@,
        "--end-of-options"@,
        id@,
    ]);
    out
}

/// The arguments that list the refs for a clone.
pub fn ref_arguments() -> (r: Vec<String>)
    ensures
        text::views(r@) == seq!["for-each-ref"@, "--format=%(objectname)%09%(refname)"@],
{
    let mut out: Vec<String> = Vec::new();
    out.push("for-each-ref".to_owned());
    out.push("--format=%(objectname)%09%(refname)".to_owned());
    assert(text::views(out@) =~= seq!["for-each-ref"@, "--format=%(objectname)%09%(refname)"@]);
    out
}

}
