//! Runtime configuration sourced from environment variables.

use vstd::prelude::*;
use crate::error::{Error, ErrorView};
use crate::text::{self, trimmed, Class};

verus! {

/// The address that is bound when none is given.
pub const DEFAULT_ADDR: &'static str = "127.0.0.1:8080";

/// The directory that is served when none is given.
pub const DEFAULT_REPO_ROOT: &'static str = ".";

/// The longest object or pack file that is served.
pub const MAX_CLONE_FILE_BYTES: u64 = 134_217_728;

/// The variables of the process environment that are looked at; one that is
/// unset, or is no text, is `None`.
#[derive(Clone, Debug)]
pub struct Environment {
    /// `RSGIT_ADDR`.
    pub addr: Option<String>,
    /// `RSGIT_REPO_ROOT`.
    pub repo_root: Option<String>,
    /// `RSGIT_PUBLIC_BASE`.
    pub public_base: Option<String>,
}

/// What the variables hold.
pub struct EnvironmentView {
    /// `RSGIT_ADDR`.
    pub addr: Option<Seq<char>>,
    /// `RSGIT_REPO_ROOT`.
    pub repo_root: Option<Seq<char>>,
    /// `RSGIT_PUBLIC_BASE`.
    pub public_base: Option<Seq<char>>,
}

impl View for Environment {
    type V = EnvironmentView;

    open spec fn view(&self) -> EnvironmentView {
        EnvironmentView {
            addr: text::opt_view(self.addr),
            repo_root: text::opt_view(self.repo_root),
            public_base: text::opt_view(self.public_base),
        }
    }
}

/// The value, or the default when there is none.
pub open spec fn value_or(value: Option<Seq<char>>, default: Seq<char>) -> Seq<char> {
    match value {
        Some(s) => s,
        None => default,
    }
}

/// The public base that counts: one that is not blank.
pub open spec fn base_of(value: Option<Seq<char>>) -> Option<Seq<char>> {
    match value {
        Some(s) => if text::trim(s, Class::Space).len() == 0 {
            None
        } else {
            Some(s)
        },
        None => None,
    }
}

/// Immutable runtime configuration for the server.
#[derive(Clone, Debug)]
pub struct Config {
    addr: String,
    repo_root: Vec<String>,
    public_base: Option<String>,
    max_clone_file_bytes: u64,
}

/// What a configuration holds.
pub struct ConfigView {
    /// Socket address to bind.
    pub addr: Seq<char>,
    /// The components of the canonical root.
    pub repo_root: Seq<Seq<char>>,
    /// Public URL base.
    pub public_base: Option<Seq<char>>,
    /// Maximum bytes of a file served for a clone.
    pub max_clone_file_bytes: u64,
}

impl View for Config {
    type V = ConfigView;

    closed spec fn view(&self) -> ConfigView {
        ConfigView {
            addr: self.addr@,
            repo_root: text::views(self.repo_root@),
            public_base: text::opt_view(self.public_base),
            max_clone_file_bytes: self.max_clone_file_bytes,
        }
    }
}

impl Environment {
    /// The socket address in words, which is still to be parsed.
    pub fn addr_text(&self) -> (r: &str)
        ensures
            r@ == value_or(self@.addr, DEFAULT_ADDR@),
    {
        match &self.addr {
            Some(s) => s.as_str(),
            None => DEFAULT_ADDR,
        }
    }

    /// The directory to serve, which is still to be resolved.
    pub fn repo_root_text(&self) -> (r: &str)
        ensures
            r@ == value_or(self@.repo_root, DEFAULT_REPO_ROOT@),
    {
        match &self.repo_root {
            Some(s) => s.as_str(),
            None => DEFAULT_REPO_ROOT,
        }
    }
}

impl Config {
    /// Build configuration from the process environment.
    ///
    /// `addr` is what came of parsing the address, and `repo_root` what came of
    /// resolving the directory: the value, or the reason in words. The address
    /// is judged first.
    pub fn from_env(
        env: Environment,
        addr: Result<String, String>,
        repo_root: Result<Vec<String>, String>,
    ) -> (r: Result<Config, Error>)
        ensures
            addr matches Err(reason) ==> r matches Err(e) && e@ == ErrorView::Config(
                "invalid RSGIT_ADDR: "@ + reason@,
            ),
            addr is Ok ==> (repo_root matches Err(reason) ==> r matches Err(e) && e@
                == ErrorView::Io(reason@)),
            addr matches Ok(a) ==> (repo_root matches Ok(root) ==> r matches Ok(c) && c@ == (
            ConfigView {
                addr: a@,
                repo_root: text::views(root@),
                public_base: base_of(env@.public_base),
                max_clone_file_bytes: MAX_CLONE_FILE_BYTES,
            })),
    {
        let addr: String = match addr {
            Ok(a) => a,
            Err(reason) => {
                let mut message: String = "invalid RSGIT_ADDR: ".to_owned();
                message.append(reason.as_str());
                return Err(Error::Config(message));
            },
        };
        let repo_root: Vec<String> = match repo_root {
            Ok(root) => root,
            Err(reason) => return Err(Error::Io(reason)),
        };
        let public_base: Option<String> = match env.public_base {
            Some(s) => {
                let bare = trimmed(s.as_str(), Class::Space);
                if bare.as_str().is_empty() {
                    None
                } else {
                    Some(s)
                }
            },
            None => None,
        };
        Ok(Config { addr, repo_root, public_base, max_clone_file_bytes: MAX_CLONE_FILE_BYTES })
    }

    /// Socket address to bind.
    pub fn addr(&self) -> (r: &str)
        ensures
            r@ == self@.addr,
    {
        self.addr.as_str()
    }

    /// Canonical root containing public repositories, by its components.
    pub fn repo_root(&self) -> (r: &[String])
        ensures
            text::views(r@) == self@.repo_root,
    {
        self.repo_root.as_slice()
    }

    /// Optional public URL base used for clone commands behind reverse proxies.
    pub fn public_base(&self) -> (r: Option<&str>)
        ensures
            r is Some <==> self@.public_base is Some,
            r matches Some(s) ==> self@.public_base == Some(s@),
    {
        match &self.public_base {
            Some(s) => Some(s.as_str()),
            None => None,
        }
    }

    /// Maximum object/pack file bytes served for clone endpoints.
    pub fn max_clone_file_bytes(&self) -> (r: u64)
        ensures
            r == self@.max_clone_file_bytes,
    {
        self.max_clone_file_bytes
    }
}

}
