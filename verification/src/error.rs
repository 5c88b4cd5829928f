//! Build errors: located authoring diagnostics or plain messages.

use vstd::prelude::*;

use crate::loc::{diag_at, diag_at_file, str_views, DiagView, Diagnostic};

verus! {

/// A build error.
#[derive(Debug)]
pub enum Error {
    /// Authoring error with a source location.
    Diag(Diagnostic),
    /// Error without a useful location.
    Msg(String),
}

/// Mathematical value of an [`Error`].
pub enum ErrorView {
    Diag(DiagView),
    Msg(Seq<char>),
}

impl View for Error {
    type V = ErrorView;

    open spec fn view(&self) -> ErrorView {
        match self {
            Error::Diag(d) => ErrorView::Diag(d@),
            Error::Msg(m) => ErrorView::Msg(m@),
        }
    }
}

impl Error {
    /// Error located by the earliest of `needles` in `source`.
    pub fn at(file: &str, source: &str, needles: &[&str], message: &str) -> (r: Self)
        ensures
            r@ == ErrorView::Diag(diag_at(file@, source@, str_views(needles@), message@)),
    {
        Error::Diag(Diagnostic::at(file, source, needles, message))
    }

    /// Error at `file:1:1`.
    pub fn at_file(file: &str, message: &str) -> (r: Self)
        ensures
            r@ == ErrorView::Diag(diag_at_file(file@, message@)),
    {
        Error::Diag(Diagnostic::at_file(file, message))
    }

    /// Error without a location.
    pub fn msg(message: &str) -> (r: Self)
        ensures
            r@ == ErrorView::Msg(message@),
    {
        Error::Msg(String::from_str(message))
    }
}

} // verus!
