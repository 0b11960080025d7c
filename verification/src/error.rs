//! The library's error type.

use vstd::prelude::*;

verus! {

/// Why a security operation was refused.
#[derive(Debug)]
pub enum SecurityError {
    /// The named object does not exist.
    NotFound(String),
    /// The operation conflicts with the current state or its inputs.
    Internal(String),
}

/// Result of a security operation.
pub type SecurityResult<T> = Result<T, SecurityError>;

impl SecurityError {
    /// The message carried by the error.
    pub fn message(&self) -> (r: &String)
        ensures
            r@ == self.message_spec(),
    {
        match self {
            SecurityError::NotFound(m) => m,
            SecurityError::Internal(m) => m,
        }
    }

    /// The message carried by the error.
    pub open spec fn message_spec(&self) -> Seq<char> {
        match self {
            SecurityError::NotFound(m) => m@,
            SecurityError::Internal(m) => m@,
        }
    }
}

} // verus!
