//! What can go wrong in a request, with the text reported to the client.
use vstd::prelude::*;

verus! {

/// A failed operation, by kind, each with its message.
#[derive(Debug)]
pub enum Error {
    InvalidInput(String),
    NotFound(String),
    Internal(String),
    JsonRpcParse(String),
    Config(String),
    Embedding(String),
    Io(String),
}

impl Error {
    /// The message of an error.
    pub open spec fn text(self) -> Seq<char> {
        match self {
            Error::InvalidInput(m) => m@,
            Error::NotFound(m) => m@,
            Error::Internal(m) => m@,
            Error::JsonRpcParse(m) => m@,
            Error::Config(m) => m@,
            Error::Embedding(m) => m@,
            Error::Io(m) => m@,
        }
    }

    /// The message to show.
    pub fn message(&self) -> (m: String)
        ensures
            m@ == self.text(),
    {
        match self {
            Error::InvalidInput(m) => m.clone(),
            Error::NotFound(m) => m.clone(),
            Error::Internal(m) => m.clone(),
            Error::JsonRpcParse(m) => m.clone(),
            Error::Config(m) => m.clone(),
            Error::Embedding(m) => m.clone(),
            Error::Io(m) => m.clone(),
        }
    }
}

} // verus!
