//! Strongly-typed identifiers. Each wraps the 128-bit value of a ULID, so ids
//! sort by creation time and print as 26 Crockford base32 symbols.

use vstd::prelude::*;
use crate::trusted::ulid_calls::{ulid_accepts, ulid_decode, ulid_encode, ulid_generate, ulid_text, ulid_value};

verus! {

/// Identifier of a project.
#[derive(Debug, Clone, Copy, PartialEq, Eq, Hash, PartialOrd, Ord, Structural)]
pub struct ProjectId(pub u128);

impl ProjectId {
    /// A fresh identifier drawn from the clock and a random source.
    pub fn new() -> (r: ProjectId) {
        ProjectId(ulid_generate())
    }

    /// The 26-symbol ULID text of the identifier.
    pub fn to_string(&self) -> (r: String)
        ensures
            r@ == ulid_text(self.0),
    {
        ulid_encode(self.0)
    }

    /// Parses the 26-symbol ULID text of an identifier.
    pub fn parse_str(s: &str) -> (r: Result<ProjectId, ulid::DecodeError>)
        ensures
            r is Ok <==> ulid_accepts(s@),
            r is Ok ==> r->Ok_0.0 == ulid_value(s@),
    {
        match ulid_decode(s) {
            Ok(v) => Ok(ProjectId(v)),
            Err(e) => Err(e),
        }
    }
}

impl std::str::FromStr for ProjectId {
    type Err = ulid::DecodeError;

    fn from_str(s: &str) -> (r: Result<ProjectId, ulid::DecodeError>)
        ensures
            r is Ok <==> ulid_accepts(s@),
            r is Ok ==> r->Ok_0.0 == ulid_value(s@),
    {
        ProjectId::parse_str(s)
    }
}

/// Identifier of a plan.
#[derive(Debug, Clone, Copy, PartialEq, Eq, Hash, PartialOrd, Ord, Structural)]
pub struct PlanId(pub u128);

impl PlanId {
    /// A fresh identifier drawn from the clock and a random source.
    pub fn new() -> (r: PlanId) {
        PlanId(ulid_generate())
    }

    /// The 26-symbol ULID text of the identifier.
    pub fn to_string(&self) -> (r: String)
        ensures
            r@ == ulid_text(self.0),
    {
        ulid_encode(self.0)
    }

    /// Parses the 26-symbol ULID text of an identifier.
    pub fn parse_str(s: &str) -> (r: Result<PlanId, ulid::DecodeError>)
        ensures
            r is Ok <==> ulid_accepts(s@),
            r is Ok ==> r->Ok_0.0 == ulid_value(s@),
    {
        match ulid_decode(s) {
            Ok(v) => Ok(PlanId(v)),
            Err(e) => Err(e),
        }
    }
}

impl std::str::FromStr for PlanId {
    type Err = ulid::DecodeError;

    fn from_str(s: &str) -> (r: Result<PlanId, ulid::DecodeError>)
        ensures
            r is Ok <==> ulid_accepts(s@),
            r is Ok ==> r->Ok_0.0 == ulid_value(s@),
    {
        PlanId::parse_str(s)
    }
}

/// Identifier of a plan node.
#[derive(Debug, Clone, Copy, PartialEq, Eq, Hash, PartialOrd, Ord, Structural)]
pub struct NodeId(pub u128);

impl NodeId {
    /// A fresh identifier drawn from the clock and a random source.
    pub fn new() -> (r: NodeId) {
        NodeId(ulid_generate())
    }

    /// The 26-symbol ULID text of the identifier.
    pub fn to_string(&self) -> (r: String)
        ensures
            r@ == ulid_text(self.0),
    {
        ulid_encode(self.0)
    }

    /// Parses the 26-symbol ULID text of an identifier.
    pub fn parse_str(s: &str) -> (r: Result<NodeId, ulid::DecodeError>)
        ensures
            r is Ok <==> ulid_accepts(s@),
            r is Ok ==> r->Ok_0.0 == ulid_value(s@),
    {
        match ulid_decode(s) {
            Ok(v) => Ok(NodeId(v)),
            Err(e) => Err(e),
        }
    }
}

impl std::str::FromStr for NodeId {
    type Err = ulid::DecodeError;

    fn from_str(s: &str) -> (r: Result<NodeId, ulid::DecodeError>)
        ensures
            r is Ok <==> ulid_accepts(s@),
            r is Ok ==> r->Ok_0.0 == ulid_value(s@),
    {
        NodeId::parse_str(s)
    }
}

/// Identifier of a confirmed semantic or procedural memory.
#[derive(Debug, Clone, Copy, PartialEq, Eq, Hash, PartialOrd, Ord, Structural)]
pub struct FactId(pub u128);

impl FactId {
    /// A fresh identifier drawn from the clock and a random source.
    pub fn new() -> (r: FactId) {
        FactId(ulid_generate())
    }

    /// The 26-symbol ULID text of the identifier.
    pub fn to_string(&self) -> (r: String)
        ensures
            r@ == ulid_text(self.0),
    {
        ulid_encode(self.0)
    }

    /// Parses the 26-symbol ULID text of an identifier.
    pub fn parse_str(s: &str) -> (r: Result<FactId, ulid::DecodeError>)
        ensures
            r is Ok <==> ulid_accepts(s@),
            r is Ok ==> r->Ok_0.0 == ulid_value(s@),
    {
        match ulid_decode(s) {
            Ok(v) => Ok(FactId(v)),
            Err(e) => Err(e),
        }
    }
}

impl std::str::FromStr for FactId {
    type Err = ulid::DecodeError;

    fn from_str(s: &str) -> (r: Result<FactId, ulid::DecodeError>)
        ensures
            r is Ok <==> ulid_accepts(s@),
            r is Ok ==> r->Ok_0.0 == ulid_value(s@),
    {
        FactId::parse_str(s)
    }
}

/// Identifier of a confirmed episodic memory.
#[derive(Debug, Clone, Copy, PartialEq, Eq, Hash, PartialOrd, Ord, Structural)]
pub struct EpisodeId(pub u128);

impl EpisodeId {
    /// A fresh identifier drawn from the clock and a random source.
    pub fn new() -> (r: EpisodeId) {
        EpisodeId(ulid_generate())
    }

    /// The 26-symbol ULID text of the identifier.
    pub fn to_string(&self) -> (r: String)
        ensures
            r@ == ulid_text(self.0),
    {
        ulid_encode(self.0)
    }

    /// Parses the 26-symbol ULID text of an identifier.
    pub fn parse_str(s: &str) -> (r: Result<EpisodeId, ulid::DecodeError>)
        ensures
            r is Ok <==> ulid_accepts(s@),
            r is Ok ==> r->Ok_0.0 == ulid_value(s@),
    {
        match ulid_decode(s) {
            Ok(v) => Ok(EpisodeId(v)),
            Err(e) => Err(e),
        }
    }
}

impl std::str::FromStr for EpisodeId {
    type Err = ulid::DecodeError;

    fn from_str(s: &str) -> (r: Result<EpisodeId, ulid::DecodeError>)
        ensures
            r is Ok <==> ulid_accepts(s@),
            r is Ok ==> r->Ok_0.0 == ulid_value(s@),
    {
        EpisodeId::parse_str(s)
    }
}

/// Identifier of a memory candidate waiting in the inbox.
#[derive(Debug, Clone, Copy, PartialEq, Eq, Hash, PartialOrd, Ord, Structural)]
pub struct InboxItemId(pub u128);

impl InboxItemId {
    /// A fresh identifier drawn from the clock and a random source.
    pub fn new() -> (r: InboxItemId) {
        InboxItemId(ulid_generate())
    }

    /// The 26-symbol ULID text of the identifier.
    pub fn to_string(&self) -> (r: String)
        ensures
            r@ == ulid_text(self.0),
    {
        ulid_encode(self.0)
    }

    /// Parses the 26-symbol ULID text of an identifier.
    pub fn parse_str(s: &str) -> (r: Result<InboxItemId, ulid::DecodeError>)
        ensures
            r is Ok <==> ulid_accepts(s@),
            r is Ok ==> r->Ok_0.0 == ulid_value(s@),
    {
        match ulid_decode(s) {
            Ok(v) => Ok(InboxItemId(v)),
            Err(e) => Err(e),
        }
    }
}

impl std::str::FromStr for InboxItemId {
    type Err = ulid::DecodeError;

    fn from_str(s: &str) -> (r: Result<InboxItemId, ulid::DecodeError>)
        ensures
            r is Ok <==> ulid_accepts(s@),
            r is Ok ==> r->Ok_0.0 == ulid_value(s@),
    {
        InboxItemId::parse_str(s)
    }
}

/// Reading back the text of an identifier gives the identifier: for every
/// value, `parse_str(id.to_string())` succeeds with `id`.
pub proof fn lemma_id_text_roundtrip(v: u128)
    ensures
        ulid_accepts(ulid_text(v)),
        ulid_value(ulid_text(v)) == v,
{
    crate::trusted::ulid_calls::lemma_ulid_text_roundtrip(v);
}

/// Human-readable project name, unique per machine.
#[derive(Debug, Clone, PartialEq, Eq, Hash)]
pub struct ProjectSlug(pub String);

impl ProjectSlug {
    pub fn new(s: &str) -> (r: ProjectSlug)
        ensures
            r.0@ == s@,
    {
        ProjectSlug(String::from_str(s))
    }

    pub fn as_str(&self) -> (r: &str)
        ensures
            r@ == self.0@,
    {
        self.0.as_str()
    }

    /// Display text: the slug itself.
    pub fn to_string(&self) -> (r: String)
        ensures
            r@ == self.0@,
    {
        self.0.clone()
    }
}

} // verus!
