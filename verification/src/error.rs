//! Failures of the library.

use vstd::prelude::*;

verus! {

/// A failure of a transfer or of one of its parts.
#[derive(Debug)]
pub enum Error {
    Protocol(String),
    Rejected(String),
    UnsafeName,
    TooLarge,
    Closed,
    Timeout,
    Pin,
    NotFound(String),
    Hash(String),
    Untrusted(String),
    Crypto(String),
    Io(std::io::Error),
}

/// `std::io::Error`, carried through and never looked into.
#[verifier::external_type_specification]
#[verifier::external_body]
pub struct ExIoError(std::io::Error);

/// What an [`Error`] says, with its texts as sequences of characters.
pub ghost enum ErrorView {
    Protocol(Seq<char>),
    Rejected(Seq<char>),
    UnsafeName,
    TooLarge,
    Closed,
    Timeout,
    Pin,
    NotFound(Seq<char>),
    Hash(Seq<char>),
    Untrusted(Seq<char>),
    Crypto(Seq<char>),
    Io,
}

impl View for Error {
    type V = ErrorView;

    open spec fn view(&self) -> ErrorView {
        match *self {
            Error::Protocol(text) => ErrorView::Protocol(text@),
            Error::Rejected(text) => ErrorView::Rejected(text@),
            Error::UnsafeName => ErrorView::UnsafeName,
            Error::TooLarge => ErrorView::TooLarge,
            Error::Closed => ErrorView::Closed,
            Error::Timeout => ErrorView::Timeout,
            Error::Pin => ErrorView::Pin,
            Error::NotFound(text) => ErrorView::NotFound(text@),
            Error::Hash(text) => ErrorView::Hash(text@),
            Error::Untrusted(text) => ErrorView::Untrusted(text@),
            Error::Crypto(text) => ErrorView::Crypto(text@),
            Error::Io(_) => ErrorView::Io,
        }
    }
}

pub type Result<T> = std::result::Result<T, Error>;

impl Error {
    pub fn protocol(message: &str) -> (error: Self)
        ensures
            error@ == ErrorView::Protocol(message@),
    {
        Self::Protocol(message.to_owned())
    }

    pub fn crypto(message: &str) -> (error: Self)
        ensures
            error@ == ErrorView::Crypto(message@),
    {
        Self::Crypto(message.to_owned())
    }
}

/// What is said of a failure, except of one of the system.
pub open spec fn error_text(error: ErrorView) -> Seq<char> {
    match error {
        ErrorView::Protocol(text) => text,
        ErrorView::Rejected(text) => "transfer rejected: "@ + text,
        ErrorView::UnsafeName => "unsafe file name"@,
        ErrorView::TooLarge => "file exceeds the size limit"@,
        ErrorView::Closed => "peer closed the connection"@,
        ErrorView::Timeout => "timed out"@,
        ErrorView::Pin => "wrong or missing pin"@,
        ErrorView::NotFound(text) => "not found: "@ + text,
        ErrorView::Hash(text) => "hash mismatch for "@ + text,
        ErrorView::Untrusted(text) => "untrusted peer certificate "@ + text,
        ErrorView::Crypto(text) => "cryptography failure: "@ + text,
        ErrorView::Io => Seq::empty(),
    }
}

/// Calls `to_string` of `std::io::Error`.
#[verifier::external_body]
fn io_text(error: &std::io::Error) -> (text: String) {
    error.to_string()
}

fn with_text(prefix: &str, text: &String) -> (message: String)
    ensures
        message@ == prefix@ + text@,
{
    let mut message = prefix.to_owned();
    message.append(text.as_str());
    message
}

impl Error {
    /// What is said of the failure. A failure of the system is told in words of
    /// the system.
    pub fn message(&self) -> (text: String)
        ensures
            !(self@ is Io) ==> text@ == error_text(self@),
    {
        match self {
            Error::Protocol(text) => text.clone(),
            Error::Rejected(text) => with_text("transfer rejected: ", text),
            Error::UnsafeName => "unsafe file name".to_owned(),
            Error::TooLarge => "file exceeds the size limit".to_owned(),
            Error::Closed => "peer closed the connection".to_owned(),
            Error::Timeout => "timed out".to_owned(),
            Error::Pin => "wrong or missing pin".to_owned(),
            Error::NotFound(text) => with_text("not found: ", text),
            Error::Hash(text) => with_text("hash mismatch for ", text),
            Error::Untrusted(text) => with_text("untrusted peer certificate ", text),
            Error::Crypto(text) => with_text("cryptography failure: ", text),
            Error::Io(error) => io_text(error),
        }
    }
}

/// The outcome `result` with its value and its error taken by their views.
pub open spec fn outcome<T: View>(result: Result<T>) -> std::result::Result<T::V, ErrorView> {
    match result {
        Ok(value) => Ok(value@),
        Err(error) => Err(error@),
    }
}

/// Calls `std::io::Error::new` for an input that ends too early.
#[verifier::external_body]
pub(crate) fn unexpected_end() -> (error: std::io::Error) {
    std::io::Error::new(std::io::ErrorKind::UnexpectedEof, "failed to fill whole buffer")
}

} // verus!
