//! Skills: packaged capabilities an agent can invoke through the sandbox.

use vstd::prelude::*;
use crate::base::capability::Capability;

verus! {

#[derive(Debug, Clone)]
pub struct Skill {
    pub name: String,
    pub version: String,
    pub description: String,
    pub capabilities: Vec<Capability>,
    pub enabled: bool,
}

/// Where a skill is installed from.
#[derive(Debug, Clone)]
pub enum SkillSource {
    Local { path: String },
    Git { url: String, rev: Option<String> },
    Registry { name: String, version: Option<String> },
}

} // verus!
