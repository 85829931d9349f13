//! The failures that end a generation run.

use vstd::prelude::*;

verus! {

/// Bytes that should hold readable text are not well-formed UTF-8.
#[derive(Debug, Clone, Copy, PartialEq, Eq)]
pub struct InvalidUtf;

/// Why a run stopped. Each variant carries the commit id or the tree path where it happened.
#[derive(Debug, Clone, PartialEq, Eq)]
pub enum SiteError {
    /// The source is not a repository.
    RepositoryOpen(String),
    /// An object of the repository could not be read, or holds what no object may hold.
    ObjectRead(String),
    /// A name, an email address, a message, a diffstat or a patch is not readable text.
    InvalidText(String),
    /// The highlighter failed on a file.
    Highlight(String),
    /// The destination could not be written.
    Io(String),
}

/// A `SiteError` with its context as a character sequence.
pub enum Failure {
    RepositoryOpen(Seq<char>),
    ObjectRead(Seq<char>),
    InvalidText(Seq<char>),
    Highlight(Seq<char>),
    Io(Seq<char>),
}

impl View for SiteError {
    type V = Failure;

    open spec fn view(&self) -> Failure {
        match self {
            SiteError::RepositoryOpen(s) => Failure::RepositoryOpen(s@),
            SiteError::ObjectRead(s) => Failure::ObjectRead(s@),
            SiteError::InvalidText(s) => Failure::InvalidText(s@),
            SiteError::Highlight(s) => Failure::Highlight(s@),
            SiteError::Io(s) => Failure::Io(s@),
        }
    }
}

} // verus!
