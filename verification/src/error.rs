//! The library's error type.

use crate::util::text::{concat2, concat3, concat5, copy_str};
use vstd::prelude::*;

verus! {

/// The result of an operation that can fail with [`Error`].
pub type Result<T> = std::result::Result<T, Error>;

/// What can go wrong.
#[derive(Debug, Clone)]
pub enum Error {
    /// No 7z program was found.
    BackendMissing(String),
    /// A 7z program ran and failed.
    BackendFailed(String),
    /// A regular expression does not compile.
    InvalidRegex { pattern: String, source: String },
    /// A filter rule cannot be read.
    InvalidFilter { rule: String, message: String },
    /// A filter file does not exist.
    FilterFileNotFound(String),
    /// Two members would get the same name.
    NameCollision(String),
    /// A member is not in the archive.
    EntryNotFound(String),
    /// The file system reported an error.
    Io(String),
    /// Anything else.
    Other(String),
}

/// The contents of an [`Error`].
#[verifier::ext_equal]
pub enum ErrorView {
    BackendMissing(Seq<char>),
    BackendFailed(Seq<char>),
    InvalidRegex { pattern: Seq<char>, source: Seq<char> },
    InvalidFilter { rule: Seq<char>, message: Seq<char> },
    FilterFileNotFound(Seq<char>),
    NameCollision(Seq<char>),
    EntryNotFound(Seq<char>),
    Io(Seq<char>),
    Other(Seq<char>),
}

impl View for Error {
    type V = ErrorView;

    open spec fn view(&self) -> ErrorView {
        match *self {
            Error::BackendMissing(s) => ErrorView::BackendMissing(s@),
            Error::BackendFailed(s) => ErrorView::BackendFailed(s@),
            Error::InvalidRegex { pattern, source } => ErrorView::InvalidRegex {
                pattern: pattern@,
                source: source@,
            },
            Error::InvalidFilter { rule, message } => ErrorView::InvalidFilter {
                rule: rule@,
                message: message@,
            },
            Error::FilterFileNotFound(s) => ErrorView::FilterFileNotFound(s@),
            Error::NameCollision(s) => ErrorView::NameCollision(s@),
            Error::EntryNotFound(s) => ErrorView::EntryNotFound(s@),
            Error::Io(s) => ErrorView::Io(s@),
            Error::Other(s) => ErrorView::Other(s@),
        }
    }
}

impl ErrorView {
    /// The text that is shown for an error.
    pub open spec fn message(self) -> Seq<char> {
        match self {
            ErrorView::BackendMissing(s) => "7z backend not found: "@ + s,
            ErrorView::BackendFailed(s) => "7z command failed: "@ + s,
            ErrorView::InvalidRegex { pattern, source } => "invalid regex '"@ + pattern + "': "@
                + source + ""@,
            ErrorView::InvalidFilter { rule, message } => "invalid filter rule '"@ + rule + "': "@
                + message + ""@,
            ErrorView::FilterFileNotFound(s) => "filter file not found: "@ + s,
            ErrorView::NameCollision(s) => "name collision: multiple members map to '"@ + s + "'"@,
            ErrorView::EntryNotFound(s) => "entry not found in archive: "@ + s,
            ErrorView::Io(s) => "I/O error: "@ + s,
            ErrorView::Other(s) => s,
        }
    }

    /// A mistake in how the program was called, as against a failure of the work itself.
    pub open spec fn is_usage(self) -> bool {
        self is BackendMissing || self is InvalidRegex || self is InvalidFilter
            || self is FilterFileNotFound || self is NameCollision
    }
}

impl Error {
    /// A copy of this error.
    pub fn copy(&self) -> (r: Error)
        ensures
            r@ == self@,
    {
        match self {
            Error::BackendMissing(s) => Error::BackendMissing(copy_str(s.as_str())),
            Error::BackendFailed(s) => Error::BackendFailed(copy_str(s.as_str())),
            Error::InvalidRegex { pattern, source } => Error::InvalidRegex {
                pattern: copy_str(pattern.as_str()),
                source: copy_str(source.as_str()),
            },
            Error::InvalidFilter { rule, message } => Error::InvalidFilter {
                rule: copy_str(rule.as_str()),
                message: copy_str(message.as_str()),
            },
            Error::FilterFileNotFound(s) => Error::FilterFileNotFound(copy_str(s.as_str())),
            Error::NameCollision(s) => Error::NameCollision(copy_str(s.as_str())),
            Error::EntryNotFound(s) => Error::EntryNotFound(copy_str(s.as_str())),
            Error::Io(s) => Error::Io(copy_str(s.as_str())),
            Error::Other(s) => Error::Other(copy_str(s.as_str())),
        }
    }

    /// The text that is shown for this error.
    pub fn message(&self) -> (r: String)
        ensures
            r@ == self@.message(),
    {
        match self {
            Error::BackendMissing(s) => concat2("7z backend not found: ", s.as_str()),
            Error::BackendFailed(s) => concat2("7z command failed: ", s.as_str()),
            Error::InvalidRegex { pattern, source } => concat5(
                "invalid regex '",
                pattern.as_str(),
                "': ",
                source.as_str(),
                "",
            ),
            Error::InvalidFilter { rule, message } => concat5(
                "invalid filter rule '",
                rule.as_str(),
                "': ",
                message.as_str(),
                "",
            ),
            Error::FilterFileNotFound(s) => concat2("filter file not found: ", s.as_str()),
            Error::NameCollision(s) => concat3(
                "name collision: multiple members map to '",
                s.as_str(),
                "'",
            ),
            Error::EntryNotFound(s) => concat2("entry not found in archive: ", s.as_str()),
            Error::Io(s) => concat2("I/O error: ", s.as_str()),
            Error::Other(s) => copy_str(s.as_str()),
        }
    }

    /// The exit code of a program that stops with this error: 2 for a mistake in how it was
    /// called, 1 for any other failure.
    pub fn exit_code(&self) -> (r: u8)
        ensures
            r == (if self@.is_usage() {
                2u8
            } else {
                1u8
            }),
    {
        match self {
            Error::BackendMissing(_)
            | Error::InvalidRegex { .. }
            | Error::InvalidFilter { .. }
            | Error::FilterFileNotFound(_)
            | Error::NameCollision(_) => 2,
            _ => 1,
        }
    }
}

/// An error with a literal message.
pub fn other(message: &str) -> (r: Error)
    ensures
        r@ == ErrorView::Other(message@),
{
    Error::Other(copy_str(message))
}

/// A filter rule that cannot be read.
pub fn invalid_filter(rule: &str, message: &str) -> (r: Error)
    ensures
        r@ == (ErrorView::InvalidFilter { rule: rule@, message: message@ }),
{
    Error::InvalidFilter { rule: copy_str(rule), message: copy_str(message) }
}

/// Law: mistakes in how the program was called are a missing backend, rules and expressions that
/// cannot be read, a rule file that is not there, and names that collide; failures of the work are
/// not.
pub proof fn law_mistakes_of_usage(s: Seq<char>, t: Seq<char>)
    ensures
        ErrorView::BackendMissing(s).is_usage(),
        (ErrorView::InvalidRegex { pattern: s, source: t }).is_usage(),
        (ErrorView::InvalidFilter { rule: s, message: t }).is_usage(),
        ErrorView::FilterFileNotFound(s).is_usage(),
        ErrorView::NameCollision(s).is_usage(),
        !ErrorView::BackendFailed(s).is_usage(),
        !ErrorView::EntryNotFound(s).is_usage(),
        !ErrorView::Io(s).is_usage(),
        !ErrorView::Other(s).is_usage(),
{
}

/// Law: the text that is shown for an error holds what the error is about, and ends with its cause.
pub proof fn law_messages(s: Seq<char>, t: Seq<char>)
    ensures
        ErrorView::Other(s).message() == s,
        ErrorView::BackendMissing(s).message() == "7z backend not found: "@ + s,
        ErrorView::BackendFailed(s).message() == "7z command failed: "@ + s,
        (ErrorView::InvalidRegex { pattern: s, source: t }).message() == "invalid regex '"@ + s
            + "': "@ + t,
        (ErrorView::InvalidFilter { rule: s, message: t }).message() == "invalid filter rule '"@ + s
            + "': "@ + t,
        ErrorView::FilterFileNotFound(s).message() == "filter file not found: "@ + s,
        ErrorView::NameCollision(s).message() == "name collision: multiple members map to '"@ + s
            + "'"@,
        ErrorView::EntryNotFound(s).message() == "entry not found in archive: "@ + s,
        ErrorView::Io(s).message() == "I/O error: "@ + s,
{
    reveal_strlit("");
    assert(""@ =~= Seq::<char>::empty());
    assert((ErrorView::InvalidRegex { pattern: s, source: t }).message() =~= "invalid regex '"@ + s
        + "': "@ + t);
    assert((ErrorView::InvalidFilter { rule: s, message: t }).message()
        =~= "invalid filter rule '"@ + s + "': "@ + t);
}

} // verus!
