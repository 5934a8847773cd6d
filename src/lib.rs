//! Subprocess execution and supervision: process-tree discovery, graceful-then-forced
//! termination, and the decision logic that turns a child's events into a result.

use vstd::prelude::*;
use vstd::string::StringExecFns;

pub mod escalate;
pub mod process;
pub mod supervise;
mod sys;
pub mod tree;

verus! {

/// The category of a library error.
#[derive(Debug, PartialEq, Eq, Structural, Clone, Copy)]
pub enum ErrorKind {
    Duplicate,
    NotFound,
    Timeout,
    InvalidData,
    Internal,
}

/// The label under which a kind is shown.
pub open spec fn kind_label(kind: ErrorKind) -> Seq<char> {
    match kind {
        ErrorKind::Duplicate => "Duplicate"@,
        ErrorKind::NotFound => "Not found"@,
        ErrorKind::Timeout => "Timeout"@,
        ErrorKind::Internal => "Internal"@,
        ErrorKind::InvalidData => "InvalidData"@,
    }
}

impl ErrorKind {
    pub fn as_str(&self) -> (r: &'static str)
        ensures
            r@ == kind_label(*self),
    {
        match self {
            ErrorKind::Duplicate => "Duplicate",
            ErrorKind::NotFound => "Not found",
            ErrorKind::Timeout => "Timeout",
            ErrorKind::Internal => "Internal",
            ErrorKind::InvalidData => "InvalidData",
        }
    }
}

/// A library error: a kind and an optional message.
#[derive(Debug)]
pub struct Error {
    pub kind: ErrorKind,
    pub message: Option<String>,
}

/// The text of an error: its label, then `": "` and the message when there is one.
pub open spec fn error_text(kind: ErrorKind, message: Option<Seq<char>>) -> Seq<char> {
    match message {
        Some(m) => kind_label(kind) + ": "@ + m,
        None => kind_label(kind),
    }
}

/// The message of an error as characters.
pub open spec fn message_view(message: Option<String>) -> Option<Seq<char>> {
    match message {
        Some(m) => Some(m@),
        None => None,
    }
}

impl Error {
    pub fn duplicate(message: &str) -> (r: Self)
        ensures
            r.kind == ErrorKind::Duplicate,
            message_view(r.message) == Some(message@),
    {
        Error { kind: ErrorKind::Duplicate, message: Some(message.to_owned()) }
    }

    pub fn not_found(message: &str) -> (r: Self)
        ensures
            r.kind == ErrorKind::NotFound,
            message_view(r.message) == Some(message@),
    {
        Error { kind: ErrorKind::NotFound, message: Some(message.to_owned()) }
    }

    pub fn timeout() -> (r: Self)
        ensures
            r.kind == ErrorKind::Timeout,
            r.message.is_none(),
    {
        Error { kind: ErrorKind::Timeout, message: None }
    }

    pub fn internal(message: &str) -> (r: Self)
        ensures
            r.kind == ErrorKind::Internal,
            message_view(r.message) == Some(message@),
    {
        Error { kind: ErrorKind::Internal, message: Some(message.to_owned()) }
    }

    pub fn invalid_data(message: &str) -> (r: Self)
        ensures
            r.kind == ErrorKind::InvalidData,
            message_view(r.message) == Some(message@),
    {
        Error { kind: ErrorKind::InvalidData, message: Some(message.to_owned()) }
    }

    /// The error as text, as it is shown to a user.
    pub fn to_string(&self) -> (r: String)
        ensures
            r@ == error_text(self.kind, message_view(self.message)),
    {
        let mut text = String::new();
        text.append(self.kind.as_str());
        match &self.message {
            Some(m) => {
                text.append(": ");
                text.append(m.as_str());
                proof {
                    reveal_strlit(": ");
                }
            },
            None => {},
        }
        text
    }
}

} // verus!
