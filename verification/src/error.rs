//! How an operation fails.
use vstd::prelude::*;
use vstd::string::*;

verus! {

/// Why a maintenance operation could not proceed.
#[derive(Debug)]
pub enum Error {
    /// The store, or a request about it, is not in a form the operation can
    /// safely work with.
    InvalidFormat {
        /// What an operator reads.
        details: String,
    },
    /// Reading or writing a file failed.
    InputOutput {
        /// The whole line an operator reads.
        details: String,
    },
}

impl Error {
    /// Whether this is a format refusal with exactly this text.
    pub open spec fn refuses(self, details: Seq<char>) -> bool {
        self matches Error::InvalidFormat { details: stated } && stated@ == details
    }

    /// The line an operator reads.
    pub open spec fn message(self) -> Seq<char> {
        match self {
            Error::InvalidFormat { details } => "invalid segment-tar data: "@ + details@,
            Error::InputOutput { details } => details@,
        }
    }

    /// Whether this is the same failure, with the same text.
    pub open spec fn is_like(self, other: Error) -> bool {
        match (self, other) {
            (
                Error::InvalidFormat { details },
                Error::InvalidFormat { details: stated },
            ) => details@ == stated@,
            (Error::InputOutput { details }, Error::InputOutput { details: stated }) => details@
                == stated@,
            _ => false,
        }
    }

    /// The same failure once more.
    pub fn copied(&self) -> (error: Error)
        ensures
            error.is_like(*self),
    {
        match self {
            Error::InvalidFormat { details } => Error::InvalidFormat { details: details.clone() },
            Error::InputOutput { details } => Error::InputOutput { details: details.clone() },
        }
    }

    /// The line an operator reads.
    pub fn to_text(&self) -> (text: String)
        ensures
            text@ == self.message(),
    {
        match self {
            Error::InvalidFormat { details } => {
                let mut text = String::from_str("invalid segment-tar data: ");
                text.append(details.as_str());
                text
            },
            Error::InputOutput { details } => details.clone(),
        }
    }
}

/// A format refusal with a fixed text.
pub fn refusal(details: &str) -> (error: Error)
    ensures
        error.refuses(details@),
{
    Error::InvalidFormat { details: String::from_str(details) }
}

} // verus!
