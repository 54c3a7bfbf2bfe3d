//! Errors of the synchronisation.

use vstd::prelude::*;
use vstd::string::StringExecFns;

verus! {

/// Why a step of the synchronisation failed.
#[derive(Debug, Clone)]
pub enum Error {
    /// The remote service refused or failed: its error, in debug form.
    Confluence(String),
    /// The book could not be read: the book tool's error, in debug form.
    MdBook(String),
    /// Any other failure, with its message.
    Error(String),
}

impl Error {
    /// The text shown for this error.
    pub open spec fn message_text(self) -> Seq<char> {
        match self {
            Error::Confluence(e) => "Failed to update Confluence: "@ + e@,
            Error::MdBook(e) => "MdBook Error: "@ + e@,
            Error::Error(e) => e@,
        }
    }

    /// The text shown for this error.
    pub fn message(&self) -> (r: String)
        ensures
            r@ == self.message_text(),
    {
        match self {
            Error::Confluence(e) => "Failed to update Confluence: ".to_owned().concat(e.as_str()),
            Error::MdBook(e) => "MdBook Error: ".to_owned().concat(e.as_str()),
            Error::Error(e) => e.clone(),
        }
    }
}

} // verus!
