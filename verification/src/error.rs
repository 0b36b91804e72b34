//! Error and result types shared across the application.

use vstd::prelude::*;

verus! {

/// Errors that can occur while bootstrapping or serving rsgit.
#[derive(Clone, Debug)]
pub enum Error {
    /// What the system says of an I/O error.
    Io(String),
    /// Invalid runtime configuration.
    Config(String),
}

/// What an error holds.
pub enum ErrorView {
    /// An I/O error.
    Io(Seq<char>),
    /// Invalid runtime configuration.
    Config(Seq<char>),
}

impl View for Error {
    type V = ErrorView;

    open spec fn view(&self) -> ErrorView {
        match *self {
            Error::Io(s) => ErrorView::Io(s@),
            Error::Config(s) => ErrorView::Config(s@),
        }
    }
}

/// How an error reads.
pub open spec fn error_text(e: ErrorView) -> Seq<char> {
    match e {
        ErrorView::Io(s) => "io error: "@ + s,
        ErrorView::Config(s) => "configuration error: "@ + s,
    }
}

impl Error {
    /// The error in words.
    pub fn message(&self) -> (r: String)
        ensures
            r@ == error_text(self@),
    {
        match self {
            Error::Io(s) => {
                let mut out: String = "io error: ".to_owned();
                out.append(s.as_str());
                out
            },
            Error::Config(s) => {
                let mut out: String = "configuration error: ".to_owned();
                out.append(s.as_str());
                out
            },
        }
    }
}

}
