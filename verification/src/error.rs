//! What can go wrong while a layer is scanned and unpacked.

use vstd::prelude::*;
use vstd::string::*;

use crate::path::{FilePath, PathView};

verus! {

/// A failure of the engine or of the extraction tool.
#[derive(Debug, PartialEq, Eq)]
pub enum Error {
    /// No extraction tool is known for the system the program runs on.
    SystemNotSupport,
    /// The directory to scan does not exist.
    FileNotExists(FilePath),
    /// The walk through the directory could not be started.
    SearchFailed,
    /// The file system refused an operation; the text says which.
    IoError(String),
    /// The extraction tool gave up on an archive: what it wrote to its error
    /// stream, and the archive.
    ZipError((String, FilePath)),
}

/// An [`Error`] over plain values.
pub enum ErrorView {
    SystemNotSupport,
    FileNotExists(PathView),
    SearchFailed,
    IoError(Seq<char>),
    ZipError(Seq<char>, PathView),
}

impl ErrorView {
    /// The message of the error. A path stands between double quotes.
    pub open spec fn text(self) -> Seq<char> {
        match self {
            ErrorView::SystemNotSupport => "system not support"@,
            ErrorView::FileNotExists(path) => "file not exists: \""@ + path.text() + "\""@,
            ErrorView::SearchFailed => "search failed"@,
            ErrorView::IoError(detail) => "io error: "@ + detail,
            ErrorView::ZipError(detail, path) => "zip error: "@ + detail + ", path: \""@
                + path.text() + "\""@,
        }
    }
}

impl View for Error {
    type V = ErrorView;

    open spec fn view(&self) -> ErrorView {
        match self {
            Error::SystemNotSupport => ErrorView::SystemNotSupport,
            Error::FileNotExists(path) => ErrorView::FileNotExists(path@),
            Error::SearchFailed => ErrorView::SearchFailed,
            Error::IoError(detail) => ErrorView::IoError(detail@),
            Error::ZipError(pair) => ErrorView::ZipError(pair.0@, pair.1@),
        }
    }
}

impl DeepView for Error {
    type V = ErrorView;

    open spec fn deep_view(&self) -> ErrorView {
        self@
    }
}

/// The outcome of an extraction over plain values.
pub open spec fn outcome_view(outcome: Result<(), Error>) -> Result<(), ErrorView> {
    match outcome {
        Ok(()) => Ok(()),
        Err(error) => Err(error@),
    }
}

impl Clone for Error {
    fn clone(&self) -> (copy: Error)
        ensures
            copy@ == self@,
    {
        match self {
            Error::SystemNotSupport => Error::SystemNotSupport,
            Error::FileNotExists(path) => Error::FileNotExists(path.clone()),
            Error::SearchFailed => Error::SearchFailed,
            Error::IoError(detail) => Error::IoError(detail.clone()),
            Error::ZipError(pair) => Error::ZipError((pair.0.clone(), pair.1.clone())),
        }
    }
}

impl Error {
    /// The message of the error.
    pub fn to_string(&self) -> (text: String)
        ensures
            text@ == self@.text(),
    {
        match self {
            Error::SystemNotSupport => String::from_str("system not support"),
            Error::FileNotExists(path) => {
                let mut text = String::from_str("file not exists: \"");
                text.append(path.to_string().as_str());
                text.append("\"");
                text
            },
            Error::SearchFailed => String::from_str("search failed"),
            Error::IoError(detail) => {
                let mut text = String::from_str("io error: ");
                text.append(detail.as_str());
                text
            },
            Error::ZipError(pair) => {
                let mut text = String::from_str("zip error: ");
                text.append(pair.0.as_str());
                text.append(", path: \"");
                text.append(pair.1.to_string().as_str());
                text.append("\"");
                text
            },
        }
    }
}

} // verus!
