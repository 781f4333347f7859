//! The ways in which an operation on a document fails.

use crate::text::joined;
use vstd::prelude::*;

verus! {

/// The kind of a failure.
#[derive(Clone, Copy, Debug, PartialEq, Eq, Structural)]
pub enum ErrorKind {
    /// A file could not be read or written.
    Io,
    /// The content is not a document.
    Format,
    /// No node carries the identifier, or no file stands at the path.
    NotFound,
    /// A parameter names something unknown.
    InvalidArgument,
    /// A file stands at the path already.
    AlreadyExists,
}

/// A failure: its kind, and what it is about.
#[derive(Clone, Debug, PartialEq, Eq)]
pub struct EaselError {
    pub kind: ErrorKind,
    /// The identifier, type tag, path or member that the failure is about;
    /// for `Io` the words of the system.
    pub subject: String,
}

/// The words in front of the subject in the message of a failure.
pub open spec fn message_prefix(kind: ErrorKind) -> Seq<char> {
    match kind {
        ErrorKind::Io => "I/O error: "@,
        ErrorKind::Format => "Invalid document: "@,
        ErrorKind::NotFound => "Object not found: "@,
        ErrorKind::InvalidArgument => "Unknown object type: "@,
        ErrorKind::AlreadyExists => "File already exists: "@,
    }
}

/// The words behind the subject in the message of a failure.
pub open spec fn message_suffix(kind: ErrorKind) -> Seq<char> {
    match kind {
        ErrorKind::InvalidArgument => ". Use rect, ellipse, text, or frame."@,
        _ => Seq::empty(),
    }
}

/// The message of a failure.
pub open spec fn message_text(kind: ErrorKind, subject: Seq<char>) -> Seq<char> {
    message_prefix(kind) + subject + message_suffix(kind)
}

impl ErrorKind {
    /// Whether a failure of this kind lies with what the caller asked for, a
    /// type that is not known or a path that is taken, and not with the
    /// state of the files.
    pub open spec fn spec_blames_caller(self) -> bool {
        self == ErrorKind::InvalidArgument || self == ErrorKind::AlreadyExists
    }

    /// Whether a failure of this kind lies with what the caller asked for.
    #[verifier::when_used_as_spec(spec_blames_caller)]
    pub fn blames_caller(self) -> (r: bool)
        ensures
            r == self.spec_blames_caller(),
    {
        match self {
            ErrorKind::InvalidArgument => true,
            ErrorKind::AlreadyExists => true,
            _ => false,
        }
    }
}

impl EaselError {
    /// A failure of a kind about a subject.
    pub fn new(kind: ErrorKind, subject: &str) -> (e: EaselError)
        ensures
            e.kind == kind,
            e.subject@ == subject@,
    {
        EaselError { kind, subject: subject.to_owned() }
    }

    /// The message of the failure, for whoever asked for the operation.
    pub fn message(&self) -> (r: String)
        ensures
            r@ == message_text(self.kind, self.subject@),
    {
        let subject = self.subject.as_str();
        match self.kind {
            ErrorKind::Io => {
                assert(message_text(self.kind, self.subject@) =~= "I/O error: "@ + subject@);
                joined("I/O error: ", subject)
            },
            ErrorKind::Format => {
                assert(message_text(self.kind, self.subject@) =~= "Invalid document: "@
                    + subject@);
                joined("Invalid document: ", subject)
            },
            ErrorKind::NotFound => {
                assert(message_text(self.kind, self.subject@) =~= "Object not found: "@
                    + subject@);
                joined("Object not found: ", subject)
            },
            ErrorKind::InvalidArgument => {
                let head = joined("Unknown object type: ", subject);
                joined(head.as_str(), ". Use rect, ellipse, text, or frame.")
            },
            ErrorKind::AlreadyExists => {
                assert(message_text(self.kind, self.subject@) =~= "File already exists: "@
                    + subject@);
                joined("File already exists: ", subject)
            },
        }
    }
}

} // verus!
