//! The wire protocol: its version, the version-mismatch error, and the
//! one-to-one mapping between `BluesError` and gRPC status codes.
//!
//! A status is held as its code and message; the gRPC transport turns it into
//! the transport's own status value at the edge.

pub mod gen;

use vstd::prelude::*;
use crate::base::error::BluesError;
use crate::text::{decimal, decimal_text};

verus! {

/// Wire-protocol version. Bumped on breaking changes; pure additions (new
/// calls or fields) keep it.
pub const PROTOCOL_VERSION: u32 = 1;

/// The gRPC status codes, in their wire order (`Success`, the code gRPC calls `OK`, first; `Unauthenticated` last).
#[derive(Debug, Clone, Copy, PartialEq, Eq, Structural)]
pub enum StatusCode {
    Success,
    Cancelled,
    Unknown,
    InvalidArgument,
    DeadlineExceeded,
    NotFound,
    AlreadyExists,
    PermissionDenied,
    ResourceExhausted,
    FailedPrecondition,
    Aborted,
    OutOfRange,
    Unimplemented,
    Internal,
    Unavailable,
    DataLoss,
    Unauthenticated,
}

/// A gRPC status: a code and a message.
#[derive(Debug, Clone)]
pub struct Status {
    pub code: StatusCode,
    pub message: String,
}

impl Status {
    pub fn new(code: StatusCode, message: &str) -> (r: Status)
        ensures
            r.code == code,
            r.message@ == message@,
    {
        Status { code, message: String::from_str(message) }
    }

    pub fn code(&self) -> (r: StatusCode)
        ensures
            r == self.code,
    {
        self.code
    }

    pub fn message(&self) -> (r: &str)
        ensures
            r@ == self.message@,
    {
        self.message.as_str()
    }
}

/// Raised when client and server speak different protocol versions.
#[derive(Debug, Clone, Copy, PartialEq, Eq, Structural)]
pub enum ProtocolError {
    UpgradeRequired { client: u32, server: u32 },
}

impl ProtocolError {
    /// Display text: `protocol mismatch: client=<client>, server=<server>`.
    pub open spec fn text(self) -> Seq<char> {
        match self {
            ProtocolError::UpgradeRequired { client, server } => "protocol mismatch: client="@ + decimal(
                client as nat,
            ) + ", server="@ + decimal(server as nat),
        }
    }

    pub fn to_string(&self) -> (r: String)
        ensures
            r@ == self.text(),
    {
        match self {
            ProtocolError::UpgradeRequired { client, server } => {
                let mut s = String::from_str("protocol mismatch: client=");
                let c = decimal_text(*client as u64);
                s.append(c.as_str());
                s.append(", server=");
                let v = decimal_text(*server as u64);
                s.append(v.as_str());
                s
            },
        }
    }

    /// The status a protocol mismatch is answered with: `FailedPrecondition`
    /// carrying the display text.
    pub fn to_status(&self) -> (r: Status)
        ensures
            r.code == StatusCode::FailedPrecondition,
            r.message@ == self.text(),
    {
        let text = self.to_string();
        Status { code: StatusCode::FailedPrecondition, message: text }
    }
}

/// The status code each kind of error maps onto.
pub open spec fn code_of(e: BluesError) -> StatusCode {
    match e {
        BluesError::NotFound(_) => StatusCode::NotFound,
        BluesError::PermissionDenied(_) => StatusCode::PermissionDenied,
        BluesError::Conflict(_) => StatusCode::AlreadyExists,
        BluesError::InvalidArgument(_) => StatusCode::InvalidArgument,
        BluesError::ProtocolMismatch(_) => StatusCode::FailedPrecondition,
        BluesError::Unavailable(_) => StatusCode::Unavailable,
        BluesError::Internal(_) => StatusCode::Internal,
    }
}

/// Whether `e` is of the kind a status with code `c` maps back to: a conflict
/// may arrive as `AlreadyExists` or as `Aborted`; every code without a kind
/// of its own maps back to `Internal`.
pub open spec fn kind_for_code(c: StatusCode, e: BluesError) -> bool {
    match c {
        StatusCode::NotFound => e is NotFound,
        StatusCode::PermissionDenied => e is PermissionDenied,
        StatusCode::AlreadyExists => e is Conflict,
        StatusCode::Aborted => e is Conflict,
        StatusCode::InvalidArgument => e is InvalidArgument,
        StatusCode::FailedPrecondition => e is ProtocolMismatch,
        StatusCode::Unavailable => e is Unavailable,
        _ => e is Internal,
    }
}

/// Whether two errors are of the same kind.
pub open spec fn same_kind(a: BluesError, b: BluesError) -> bool {
    code_of(a) == code_of(b)
}

/// The status an error is answered with: its kind's code and its detail.
pub fn status_from_error(e: &BluesError) -> (r: Status)
    ensures
        r.code == code_of(*e),
        r.message@ == e.detail(),
{
    let (code, msg) = match e {
        BluesError::NotFound(m) => (StatusCode::NotFound, m.as_str()),
        BluesError::PermissionDenied(m) => (StatusCode::PermissionDenied, m.as_str()),
        BluesError::Conflict(m) => (StatusCode::AlreadyExists, m.as_str()),
        BluesError::InvalidArgument(m) => (StatusCode::InvalidArgument, m.as_str()),
        BluesError::ProtocolMismatch(m) => (StatusCode::FailedPrecondition, m.as_str()),
        BluesError::Unavailable(m) => (StatusCode::Unavailable, m.as_str()),
        BluesError::Internal(m) => (StatusCode::Internal, m.as_str()),
    };
    Status::new(code, msg)
}

/// The error a client reads from a status: the kind its code maps back to
/// (`Internal` for codes without a kind of their own), carrying its message.
pub fn error_from_status(s: Status) -> (r: BluesError)
    ensures
        kind_for_code(s.code, r),
        r.detail() == s.message@,
{
    let msg = s.message;
    match s.code {
        StatusCode::NotFound => BluesError::NotFound(msg),
        StatusCode::PermissionDenied => BluesError::PermissionDenied(msg),
        StatusCode::AlreadyExists => BluesError::Conflict(msg),
        StatusCode::Aborted => BluesError::Conflict(msg),
        StatusCode::InvalidArgument => BluesError::InvalidArgument(msg),
        StatusCode::FailedPrecondition => BluesError::ProtocolMismatch(msg),
        StatusCode::Unavailable => BluesError::Unavailable(msg),
        _ => BluesError::Internal(msg),
    }
}

/// Round trip: the code an error is sent with maps back to exactly the
/// error's own kind, so an error sent as a status (`status_from_error`) and
/// read back (`error_from_status`) keeps its kind, and its detail rides along
/// as the message.
pub proof fn lemma_error_status_round_trip(e: BluesError, back: BluesError)
    ensures
        kind_for_code(code_of(e), back) <==> same_kind(back, e),
{
}

/// The mapping from error kinds to codes is one-to-one.
pub proof fn lemma_code_of_injective(a: BluesError, b: BluesError)
    ensures
        code_of(a) == code_of(b) <==> (a is NotFound && b is NotFound) || (a is PermissionDenied
            && b is PermissionDenied) || (a is Conflict && b is Conflict) || (a is InvalidArgument
            && b is InvalidArgument) || (a is ProtocolMismatch && b is ProtocolMismatch) || (a is Unavailable
            && b is Unavailable) || (a is Internal && b is Internal),
{
}

} // verus!
