//! Error values reported by the protocol.

use vstd::prelude::*;

verus! {

/// The kind of a protocol failure.
#[derive(Clone, Copy, PartialEq, Eq, Structural, Debug)]
pub enum ErrorKind {
    /// The underlying transport reported an I/O failure.
    Transport,
    /// A deadline elapsed before the operation could finish.
    Timeout,
    /// A reply had the wrong number of frames, an unexpected verb,
    /// or a frame that failed to parse.
    InvalidResponse,
    /// The receiver declined admission of the blob.
    Nogo,
}

/// An error surfaced to the caller: a kind plus a short message.
#[derive(Clone, Debug)]
pub struct XactError {
    kind: ErrorKind,
    msg: String,
}

impl XactError {
    /// The kind of this error.
    pub closed spec fn spec_kind(&self) -> ErrorKind {
        self.kind
    }

    #[verifier::when_used_as_spec(spec_kind)]
    pub fn kind(&self) -> (k: ErrorKind)
        ensures
            k == self.spec_kind(),
    {
        self.kind
    }

    pub fn new(kind: ErrorKind, msg: &str) -> (e: XactError)
        ensures
            e.kind() == kind,
    {
        XactError { kind, msg: msg.to_owned() }
    }

    /// A short human-readable account of the failure.
    pub fn message(&self) -> &str {
        self.msg.as_str()
    }
}

} // verus!
