//! Plan and node lifecycle states.

use vstd::prelude::*;

verus! {

#[derive(Debug, Clone, Copy, PartialEq, Eq, Hash, Structural)]
pub enum PlanStatus {
    Pending,
    Running,
    Paused,
    Done,
    Error,
    Cancelled,
}

#[derive(Debug, Clone, Copy, PartialEq, Eq, Hash, Structural)]
pub enum NodeStatus {
    Pending,
    Running,
    Paused,
    Done,
    Error,
    Forked,
}

} // verus!
