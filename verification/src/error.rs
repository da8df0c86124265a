//! The library's error, which carries the message shown to the user.
use vstd::prelude::*;

verus! {

/// Errors of the library. Each carries the message shown to the user.
#[derive(Debug, Clone, PartialEq, Eq)]
pub enum AppError {
    Message(String),
    InvalidPath(String),
    InvalidSession(String),
}

impl AppError {
    /// The text of the error, whatever its kind.
    pub fn message(&self) -> (r: String)
        ensures
            r@ == self.text(),
    {
        match self {
            AppError::Message(m) => m.clone(),
            AppError::InvalidPath(m) => m.clone(),
            AppError::InvalidSession(m) => m.clone(),
        }
    }

    /// The message as an owned string, for contracts.
    pub open spec fn text_string(&self) -> String {
        match self {
            AppError::Message(m) => *m,
            AppError::InvalidPath(m) => *m,
            AppError::InvalidSession(m) => *m,
        }
    }

    pub open spec fn text(&self) -> Seq<char> {
        match self {
            AppError::Message(m) => m@,
            AppError::InvalidPath(m) => m@,
            AppError::InvalidSession(m) => m@,
        }
    }
}

} // verus!
