//! The engine-level error type: a kind, optionally refined by a detail
//! string, convertible from the windowing layer's errors.

use vstd::prelude::*;

verus! {

/// What went wrong, at the engine's level of abstraction.
#[non_exhaustive]
#[derive(Clone, Copy, PartialEq, Eq, Structural, Hash, Debug, Default)]
pub enum ErrorKind {
    /// An error surfaced from the windowing backend.
    System(crate::error::ErrorKind),
    /// A component failed to draw.
    ComponentDrawError,
    /// An async operation was requested with the runtime disabled.
    DisabledRt,
    /// Any other error.
    #[default]
    Other,
}

/// An engine error: its kind and an optional human-readable detail.
#[derive(Debug)]
pub struct Error {
    pub kind: ErrorKind,
    pub details: Option<String>,
}

impl Error {
    /// An error of the given kind, without details.
    pub fn new(kind: ErrorKind) -> (r: Error)
        ensures
            r.kind == kind,
            r.details is None,
    {
        Error { kind, details: None }
    }

    /// The same error, refined by a detail string.
    pub fn with_details(self, details: String) -> (r: Error)
        ensures
            r.kind == self.kind,
            r.details == Some(details),
    {
        Error { kind: self.kind, details: Some(details) }
    }
}

impl From<crate::error::GlfwError> for Error {
    /// Wraps a windowing-layer error, keeping its kind and dropping its
    /// payload, as the engine reports details in its own words.
    fn from(value: crate::error::GlfwError) -> (r: Error) {
        Error { kind: ErrorKind::System(value.kind()), details: None }
    }
}

impl vstd::std_specs::convert::FromSpecImpl<crate::error::GlfwError> for Error {
    open spec fn obeys_from_spec() -> bool {
        true
    }

    open spec fn from_spec(t: crate::error::GlfwError) -> Error {
        Error { kind: ErrorKind::System(t.spec_kind()), details: None }
    }
}

} // verus!
