//! Errors of the windowing layer, as handed across the runtime boundary:
//! a kind plus an optional textual payload.

use vstd::prelude::*;

verus! {

/// The kind of error that occurred; non-exhaustive and subject to growth.
#[non_exhaustive]
#[derive(Clone, Copy, PartialEq, Eq, Structural, Hash, Debug)]
pub enum ErrorKind {
    /// Initializing the windowing backend failed.
    FailedInit,
    /// Creating a window returned nothing.
    WindowNull,
    /// Reading a window's dimensions failed.
    FailedGettingDims,
    /// Any other error.
    Other,
}

/// An error reported by the windowing backend.
#[derive(Debug)]
pub struct GlfwError {
    kind: ErrorKind,
    payload: Option<String>,
}

impl GlfwError {
    /// The error's kind.
    pub closed spec fn spec_kind(&self) -> ErrorKind {
        self.kind
    }

    /// The error's payload, if one was attached.
    pub closed spec fn spec_payload(&self) -> Option<String> {
        self.payload
    }

    /// A simple error, with just a kind.
    pub fn simple(kind: ErrorKind) -> (r: GlfwError)
        ensures
            r.spec_kind() == kind,
            r.spec_payload() is None,
    {
        GlfwError { kind, payload: None }
    }

    /// An error with a kind and a textual payload.
    pub fn with_payload(kind: ErrorKind, payload: String) -> (r: GlfwError)
        ensures
            r.spec_kind() == kind,
            r.spec_payload() == Some(payload),
    {
        GlfwError { kind, payload: Some(payload) }
    }

    /// Returns the kind of the error.
    pub fn kind(&self) -> (r: ErrorKind)
        ensures
            r == self.spec_kind(),
    {
        self.kind
    }
}

/// The contract a backend error sink fulfils: accept one error code and its
/// message.
pub trait ErrorCallback {
    fn on_error(&self, code: i32, message: &str);
}

/// The sink used where none was registered; the embedder that owns the
/// process's output decides what becomes of the message.
pub struct DefaultErrorCallback;

impl ErrorCallback for DefaultErrorCallback {
    fn on_error(&self, code: i32, message: &str) {
        let _ = code;
        let _ = message;
    }
}

} // verus!
