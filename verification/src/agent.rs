//! Single-agent runs: one run per plan task node, within a budget.

use vstd::prelude::*;

verus! {

/// Limits of one agent run; `None` means unlimited.
#[derive(Debug, Clone, Copy, Default)]
pub struct Budget {
    pub max_tokens: Option<usize>,
    pub max_steps: Option<usize>,
    pub max_wall_secs: Option<u64>,
}

/// Stream of agent events.
#[derive(Debug, Default)]
pub struct AgentStream;

} // verus!
