//! The plan graph: a DAG of tasks an orchestrator runs, pauses, edits and
//! resumes.

use vstd::prelude::*;
use crate::base::error::BluesError;
use crate::base::ids::{NodeId, PlanId, ProjectId};
use crate::base::status::{NodeStatus, PlanStatus};

verus! {

/// The plan engine's operations; `fork`, `replay` and `rewind` may answer
/// `Unavailable` until they are implemented.
pub trait PlanEngine {
    fn create(&self, req: CreatePlanReq) -> Result<Plan, BluesError>;

    fn start(&self, plan: PlanId) -> Result<PlanHandle, BluesError>;

    fn pause(&self, plan: PlanId) -> Result<(), BluesError>;

    fn resume(&self, plan: PlanId) -> Result<(), BluesError>;

    fn cancel(&self, plan: PlanId) -> Result<(), BluesError>;

    fn edit_node(&self, req: EditNodeReq) -> Result<Node, BluesError>;

    fn inject(&self, req: InjectReq) -> Result<(), BluesError>;

    fn state(&self, plan: PlanId) -> Result<PlanState, BluesError>;

    fn fork(&self, plan: PlanId, node: NodeId) -> Result<PlanId, BluesError>;

    fn replay(&self, plan: PlanId, node: NodeId) -> Result<PlanHandle, BluesError>;

    fn rewind(&self, plan: PlanId, node: NodeId) -> Result<(), BluesError>;
}

#[derive(Debug, Clone)]
pub struct CreatePlanReq {
    pub project: ProjectId,
    pub intent: String,
    pub auto_start: bool,
}

#[derive(Debug, Clone)]
pub struct Plan {
    pub id: PlanId,
    pub project: ProjectId,
    pub intent: String,
    pub status: PlanStatus,
    pub nodes: Vec<Node>,
    pub edges: Vec<Edge>,
}

#[derive(Debug, Clone)]
pub struct Node {
    pub id: NodeId,
    pub kind: NodeKind,
    pub title: String,
    pub status: NodeStatus,
    pub prompt: Option<String>,
}

#[derive(Debug, Clone, Copy, PartialEq, Eq, Structural)]
pub enum NodeKind {
    LlmTask,
    Tool,
    Subgraph,
}

#[derive(Debug, Clone, Copy, PartialEq, Eq, Structural)]
pub struct Edge {
    pub from: NodeId,
    pub to: NodeId,
}

#[derive(Debug, Clone)]
pub struct EditNodeReq {
    pub plan: PlanId,
    pub node: NodeId,
    pub prompt: Option<String>,
}

#[derive(Debug, Clone)]
pub struct InjectReq {
    pub plan: PlanId,
    pub node: NodeId,
    pub message: String,
}

#[derive(Debug, Clone)]
pub struct PlanState {
    pub plan: Plan,
    pub running_node: Option<NodeId>,
}

/// Handle returned from `start`.
#[derive(Debug, Default)]
pub struct PlanHandle;

} // verus!
