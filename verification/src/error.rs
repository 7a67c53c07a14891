//! The error taxonomy of the engine.

use vstd::prelude::*;
use vstd::string::StringExecFns;

verus! {

/// A failure of the engine, with a human-readable detail.
#[derive(Debug)]
pub enum CoreError {
    /// A forbidden lifecycle transition was requested.
    InvalidState(String),
    /// No task exists under the given identifier.
    NotFound(String),
    /// A request, response status, or stream failed.
    Network(String),
    /// The durable layer failed.
    Storage(String),
    /// The filesystem failed.
    Io(String),
    /// The provider is recognized but intentionally not implemented.
    Unsupported(String),
}

/// The prefix under which each error kind prints.
pub open spec fn spec_error_prefix(e: CoreError) -> Seq<char> {
    match e {
        CoreError::InvalidState(_) => "invalid task state: "@,
        CoreError::NotFound(_) => "task not found: "@,
        CoreError::Network(_) => "network error: "@,
        CoreError::Storage(_) => "storage error: "@,
        CoreError::Io(_) => "io error: "@,
        CoreError::Unsupported(_) => "unsupported: "@,
    }
}

/// The detail carried by an error.
pub open spec fn spec_error_detail(e: CoreError) -> Seq<char> {
    match e {
        CoreError::InvalidState(s) => s@,
        CoreError::NotFound(s) => s@,
        CoreError::Network(s) => s@,
        CoreError::Storage(s) => s@,
        CoreError::Io(s) => s@,
        CoreError::Unsupported(s) => s@,
    }
}

impl CoreError {
    /// The printable description: the kind's prefix followed by the detail.
    pub fn message(&self) -> (r: String)
        ensures
            r@ == spec_error_prefix(*self) + spec_error_detail(*self),
    {
        match self {
            CoreError::InvalidState(s) => String::from_str("invalid task state: ").concat(
                s.as_str(),
            ),
            CoreError::NotFound(s) => String::from_str("task not found: ").concat(s.as_str()),
            CoreError::Network(s) => String::from_str("network error: ").concat(s.as_str()),
            CoreError::Storage(s) => String::from_str("storage error: ").concat(s.as_str()),
            CoreError::Io(s) => String::from_str("io error: ").concat(s.as_str()),
            CoreError::Unsupported(s) => String::from_str("unsupported: ").concat(s.as_str()),
        }
    }

    /// A copy of the error, equal in kind and detail.
    pub fn duplicate(&self) -> (r: CoreError)
        ensures
            spec_error_prefix(r) == spec_error_prefix(*self),
            spec_error_detail(r) == spec_error_detail(*self),
    {
        match self {
            CoreError::InvalidState(s) => CoreError::InvalidState(s.clone()),
            CoreError::NotFound(s) => CoreError::NotFound(s.clone()),
            CoreError::Network(s) => CoreError::Network(s.clone()),
            CoreError::Storage(s) => CoreError::Storage(s.clone()),
            CoreError::Io(s) => CoreError::Io(s.clone()),
            CoreError::Unsupported(s) => CoreError::Unsupported(s.clone()),
        }
    }
}

/// The usual result type of the engine.
pub type CoreResult<T> = Result<T, CoreError>;

} // verus!
