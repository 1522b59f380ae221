//! The error vocabulary shared by parsing and calendar conversion.
use vstd::prelude::*;
use vstd::string::StringExecFns;

verus! {

/// The closed set of failure kinds.
#[derive(Debug, Copy, Clone, PartialEq, Eq, Structural)]
pub enum ErrorKind {
    /// The input string does not match the accepted grammar.
    InvalidFormat,
    /// A field is syntactically well formed but outside its calendar bound,
    /// or the instant cannot be represented in 64-bit nanoseconds.
    OutOfRange,
    /// The timestamp predates the earliest Japanese era on record, or an era
    /// ordinal is outside the table.
    UnknownEra,
    /// An empty string was given where one with content is required.
    NullInput,
}

/// The fixed human-readable message for each error kind.
pub open spec fn error_message(k: ErrorKind) -> Seq<char> {
    match k {
        ErrorKind::InvalidFormat => "invalid format"@,
        ErrorKind::OutOfRange => "value out of range"@,
        ErrorKind::UnknownEra => "unknown era"@,
        ErrorKind::NullInput => "null or empty input"@,
    }
}

/// The stable error-kind-to-message mapping.
pub fn error_string(k: ErrorKind) -> (s: String)
    ensures
        s@ == error_message(k),
{
    match k {
        ErrorKind::InvalidFormat => String::from_str("invalid format"),
        ErrorKind::OutOfRange => String::from_str("value out of range"),
        ErrorKind::UnknownEra => String::from_str("unknown era"),
        ErrorKind::NullInput => String::from_str("null or empty input"),
    }
}

/// A failure: a kind together with its human-readable message.
#[derive(Debug, Clone)]
pub struct Error {
    kind: ErrorKind,
    message: String,
}

impl Error {
    /// The kind of this error, as seen by contracts.
    pub closed spec fn kind_spec(&self) -> ErrorKind {
        self.kind
    }

    /// The message of this error, as seen by contracts.
    pub closed spec fn message_spec(&self) -> Seq<char> {
        self.message@
    }

    /// Every error carries the message fixed for its kind.
    pub open spec fn wf(&self) -> bool {
        self.message_spec() == error_message(self.kind_spec())
    }

    /// Build the error for a kind, with its fixed message.
    pub fn new(kind: ErrorKind) -> (e: Self)
        ensures
            e.kind_spec() == kind,
            e.wf(),
    {
        Error { kind, message: error_string(kind) }
    }

    /// The kind of this error.
    pub fn kind(&self) -> (k: ErrorKind)
        ensures
            k == self.kind_spec(),
    {
        self.kind
    }

    /// The human-readable message.
    pub fn message(&self) -> (s: &str)
        ensures
            s@ == self.message_spec(),
    {
        self.message.as_str()
    }
}

} // verus!
