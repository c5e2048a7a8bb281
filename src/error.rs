//! The ways the library's operations fail.
use vstd::prelude::*;
use vstd::string::*;

verus! {

#[derive(Clone, Debug, PartialEq, Eq)]
pub enum Error {
    /// The remote document could not be fetched.
    NetworkError(String),
    /// The body read as neither an Atom feed nor an RSS channel.
    UnrecognizedFeedFormat,
    /// The store refused the operation.
    StorageError,
    /// A referenced feed or entry does not exist.
    NotFound,
    /// A stored feed kind is neither Atom nor RSS.
    FeedKindError(String),
}

/// The message shown for an error.
pub open spec fn message_of(e: Error) -> Seq<char> {
    match e {
        Error::NetworkError(m) => "network error: "@ + m@,
        Error::UnrecognizedFeedFormat => "the document is neither an Atom feed nor an RSS channel"@,
        Error::StorageError => "the store refused the operation"@,
        Error::NotFound => "no such feed or entry"@,
        Error::FeedKindError(m) => m@ + " is not a valid feed kind"@,
    }
}

impl Error {
    /// The message shown for this error.
    pub fn message(&self) -> (r: String)
        ensures
            r@ == message_of(*self),
    {
        match self {
            Error::NetworkError(m) => {
                let mut s = String::from_str("network error: ");
                s.append(m.as_str());
                s
            },
            Error::UnrecognizedFeedFormat => String::from_str(
                "the document is neither an Atom feed nor an RSS channel",
            ),
            Error::StorageError => String::from_str("the store refused the operation"),
            Error::NotFound => String::from_str("no such feed or entry"),
            Error::FeedKindError(m) => {
                let mut s = m.clone();
                s.append(" is not a valid feed kind");
                s
            },
        }
    }

    pub fn duplicate(&self) -> (r: Error)
        ensures
            r == *self,
    {
        match self {
            Error::NetworkError(m) => Error::NetworkError(m.clone()),
            Error::UnrecognizedFeedFormat => Error::UnrecognizedFeedFormat,
            Error::StorageError => Error::StorageError,
            Error::NotFound => Error::NotFound,
            Error::FeedKindError(m) => Error::FeedKindError(m.clone()),
        }
    }
}

/// Setting the clipboard failed.
#[derive(Clone, Copy, Debug, PartialEq, Eq, Structural)]
pub struct ClipboardSetError;

} // verus!
