//! Discriminators of the events broadcast on the daemon's event bus; an event
//! filter subscribes to a subset of them.

use vstd::prelude::*;

verus! {

#[derive(Debug, Clone, Copy, PartialEq, Eq, Hash, Structural)]
pub enum EventKind {
    PlanStateChanged,
    NodeStateChanged,
    NodeOutputDelta,
    MemoryInboxAdded,
    PermissionAsk,
    PermissionResolved,
    TokenUsage,
    ProjectActivated,
    ProjectArchived,
    ActiveContextChanged,
    PlanForked,
    PlanReplayed,
    DaemonShuttingDown,
}

} // verus!
