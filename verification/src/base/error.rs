//! The canonical error of every Blues operation. Each kind maps one-to-one
//! onto a gRPC status code (see `protocol`) and onto a CLI exit code.

use vstd::prelude::*;

verus! {

/// Canonical Blues error; the payload is the human-readable detail.
#[derive(Debug, Clone)]
pub enum BluesError {
    NotFound(String),
    PermissionDenied(String),
    Conflict(String),
    InvalidArgument(String),
    ProtocolMismatch(String),
    Unavailable(String),
    Internal(String),
}

pub type Result<T> = std::result::Result<T, BluesError>;

impl BluesError {
    /// The detail carried by the error.
    pub open spec fn detail(self) -> Seq<char> {
        match self {
            BluesError::NotFound(m) => m@,
            BluesError::PermissionDenied(m) => m@,
            BluesError::Conflict(m) => m@,
            BluesError::InvalidArgument(m) => m@,
            BluesError::ProtocolMismatch(m) => m@,
            BluesError::Unavailable(m) => m@,
            BluesError::Internal(m) => m@,
        }
    }

    /// The prefix that names the kind of error in its display text.
    pub open spec fn label(self) -> Seq<char> {
        match self {
            BluesError::NotFound(_) => "not found: "@,
            BluesError::PermissionDenied(_) => "permission denied: "@,
            BluesError::Conflict(_) => "conflict: "@,
            BluesError::InvalidArgument(_) => "invalid argument: "@,
            BluesError::ProtocolMismatch(_) => "protocol mismatch: "@,
            BluesError::Unavailable(_) => "unavailable: "@,
            BluesError::Internal(_) => "internal: "@,
        }
    }

    /// Display text: the kind's label followed by the detail,
    /// e.g. `not found: plan/01J`.
    pub fn to_string(&self) -> (r: String)
        ensures
            r@ == self.label() + self.detail(),
    {
        let (label, detail) = match self {
            BluesError::NotFound(m) => ("not found: ", m),
            BluesError::PermissionDenied(m) => ("permission denied: ", m),
            BluesError::Conflict(m) => ("conflict: ", m),
            BluesError::InvalidArgument(m) => ("invalid argument: ", m),
            BluesError::ProtocolMismatch(m) => ("protocol mismatch: ", m),
            BluesError::Unavailable(m) => ("unavailable: ", m),
            BluesError::Internal(m) => ("internal: ", m),
        };
        let mut out = String::from_str(label);
        out.append(detail.as_str());
        out
    }

    /// The detail carried by the error.
    pub fn message(&self) -> (r: &String)
        ensures
            r@ == self.detail(),
    {
        match self {
            BluesError::NotFound(m) => m,
            BluesError::PermissionDenied(m) => m,
            BluesError::Conflict(m) => m,
            BluesError::InvalidArgument(m) => m,
            BluesError::ProtocolMismatch(m) => m,
            BluesError::Unavailable(m) => m,
            BluesError::Internal(m) => m,
        }
    }
}

} // verus!
