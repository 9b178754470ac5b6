//! Sandbox backends and the capability policy that picks one per call.

use vstd::prelude::*;
use crate::base::capability::Capability;

verus! {

#[derive(Debug, Clone, Copy, PartialEq, Eq, Structural)]
pub enum BackendKind {
    Host,
    Worktree,
    CubeSandbox,
}

#[derive(Debug, Clone)]
pub struct SandboxSpec {
    pub workdir: String,
    pub allow: Vec<Capability>,
}

#[derive(Debug, Clone)]
pub struct SandboxHandle {
    pub id: String,
    pub backend: BackendKind,
}

#[derive(Debug, Clone)]
pub struct ExecCmd {
    pub program: String,
    pub args: Vec<String>,
    pub env: Vec<(String, String)>,
}

#[derive(Debug, Clone)]
pub struct ExecResult {
    pub exit_code: i32,
    pub stdout: String,
    pub stderr: String,
}

#[derive(Debug, Clone)]
pub enum FsOp {
    Read { path: String },
    Write { path: String, content: String },
    List { path: String },
    Stat { path: String },
}

#[derive(Debug, Clone)]
pub struct SnapshotId(pub String);

/// Loaded from `<project>/.blues/policy.toml`: the backend each capability
/// runs on, and the one for everything else.
#[derive(Debug, Clone, Default)]
pub struct SandboxPolicy {
    pub default: Option<BackendKind>,
    pub per_capability: std::collections::BTreeMap<String, BackendKind>,
}

} // verus!
