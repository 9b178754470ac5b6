//! Public records of the memory engine: what callers write, query and get
//! back. Confidence is held in parts per million (`CONFIDENCE_ONE` is 1.0).

use vstd::prelude::*;
use crate::base::ids::{EpisodeId, FactId, InboxItemId, NodeId, PlanId, ProjectId};
use crate::base::memory::MemoryType;
use crate::base::provenance::{Provenance, ProvenanceView};
use crate::memory::store::InboxRowView;

verus! {

/// Confidence 1.0, in parts per million.
pub const CONFIDENCE_ONE: u32 = 1_000_000;

/// A memory a writer asks the engine to keep.
#[derive(Debug, Clone)]
pub struct MemoryWrite {
    pub content: String,
    pub kind: MemoryType,
    pub source: Option<String>,
    /// Parts per million; values above `CONFIDENCE_ONE` are clamped.
    pub confidence: Option<u32>,
    pub plan_id: Option<PlanId>,
    pub node_id: Option<NodeId>,
    /// Initial provenance chain attached by the caller; the engine appends its
    /// own ingestion step on top.
    pub provenance: Option<Provenance>,
}

/// What `save` returns: every write lands in the inbox first.
#[derive(Debug, Clone, Copy, PartialEq, Eq, Structural)]
pub enum MemoryRef {
    Inbox(InboxItemId),
    Fact(FactId),
    Episode(EpisodeId),
}

#[derive(Debug, Clone, Copy, PartialEq, Eq, Structural)]
pub enum Scope {
    Project,
    Linked,
    Global,
}

#[derive(Debug, Clone)]
pub struct MemoryQuery {
    pub query: String,
    pub top_k: usize,
    pub scope: Scope,
    pub kind: Option<MemoryType>,
}

/// Stable id of a confirmed record: a fact or an episode.
#[derive(Debug, Clone, Copy, PartialEq, Eq, Structural)]
pub enum HitId {
    Fact(FactId),
    Episode(EpisodeId),
}

/// Reciprocal-rank-fusion score of a hit, held exactly as the ranks it got
/// from each retrieval route: it stands for `1/(60 + fts_rank) + 1/(60 + vec_rank)`,
/// a route that did not return the hit contributing nothing.
#[derive(Debug, Clone, Copy, PartialEq, Eq, Structural)]
pub struct FusedScore {
    pub fts_rank: Option<usize>,
    pub vec_rank: Option<usize>,
}

#[derive(Debug, Clone)]
pub struct MemoryHit {
    pub score: FusedScore,
    pub kind: MemoryType,
    pub content: String,
    pub provenance: Provenance,
    pub id: HitId,
}

pub struct MemoryHitView {
    pub score: FusedScore,
    pub kind: MemoryType,
    pub content: Seq<char>,
    pub provenance: ProvenanceView,
    pub id: HitId,
}

impl View for MemoryHit {
    type V = MemoryHitView;

    open spec fn view(&self) -> MemoryHitView {
        MemoryHitView {
            score: self.score,
            kind: self.kind,
            content: self.content@,
            provenance: self.provenance@,
            id: self.id,
        }
    }
}

#[derive(Debug, Clone)]
pub struct MemoryResults {
    pub items: Vec<MemoryHit>,
}

#[derive(Debug, Clone)]
pub struct ContextRequest {
    pub project: ProjectId,
    pub task: String,
    pub token_budget: usize,
    pub model_id: Option<String>,
}

#[derive(Debug, Clone)]
pub struct ContextBlock {
    pub kind: MemoryType,
    pub text: String,
    pub provenance: Provenance,
    pub tokens: usize,
}

pub struct ContextBlockView {
    pub kind: MemoryType,
    pub text: Seq<char>,
    pub provenance: ProvenanceView,
    pub tokens: usize,
}

impl View for ContextBlock {
    type V = ContextBlockView;

    open spec fn view(&self) -> ContextBlockView {
        ContextBlockView {
            kind: self.kind,
            text: self.text@,
            provenance: self.provenance@,
            tokens: self.tokens,
        }
    }
}

#[derive(Debug, Clone)]
pub struct CompiledContext {
    pub blocks: Vec<ContextBlock>,
    pub total_tokens: usize,
    pub omitted: usize,
}

#[derive(Debug, Clone)]
pub struct InboxFilter {
    pub kind: Option<MemoryType>,
    /// Parts per million.
    pub min_confidence: Option<u32>,
    pub limit: Option<usize>,
}

impl Default for InboxFilter {
    fn default() -> (r: InboxFilter)
        ensures
            r.kind is None,
            r.min_confidence is None,
            r.limit is None,
    {
        InboxFilter { kind: None, min_confidence: None, limit: None }
    }
}

#[derive(Debug, Clone)]
pub struct InboxItem {
    pub id: InboxItemId,
    pub kind: MemoryType,
    pub content: String,
    /// Parts per million.
    pub confidence: u32,
    pub provenance: Provenance,
    pub plan_id: Option<PlanId>,
    pub node_id: Option<NodeId>,
}

impl View for InboxItem {
    type V = InboxRowView;

    open spec fn view(&self) -> InboxRowView {
        InboxRowView {
            id: self.id,
            kind: self.kind,
            content: self.content@,
            confidence: self.confidence,
            provenance: self.provenance@,
            plan_id: self.plan_id,
            node_id: self.node_id,
        }
    }
}

#[derive(Debug, Clone)]
pub struct InboxItems {
    pub items: Vec<InboxItem>,
}

/// Corrections applied while approving an inbox item.
#[derive(Debug, Clone)]
pub struct Edit {
    pub content: Option<String>,
    pub kind: Option<MemoryType>,
}

impl Default for Edit {
    fn default() -> (r: Edit)
        ensures
            r.content is None,
            r.kind is None,
    {
        Edit { content: None, kind: None }
    }
}

#[derive(Debug, Clone, Copy, PartialEq, Eq, Structural)]
pub enum ConsolidateMode {
    Decay,
    Merge,
    Procedure,
    All,
}

} // verus!
