//! Message types of the `blues.v1` wire schema that the library itself uses.

use vstd::prelude::*;

verus! {

/// The empty message.
#[derive(Debug, Clone, Copy, PartialEq, Eq, Default)]
pub struct Empty {}

/// Plan lifecycle state on the wire; `Unspecified` is the zero value.
#[derive(Debug, Clone, Copy, PartialEq, Eq, Structural)]
pub enum PlanStatus {
    Unspecified,
    Pending,
    Running,
    Paused,
    Done,
    Error,
    Cancelled,
}

} // verus!
