//! The memory store: the inbox candidate area and the confirmed layers
//! (facts — semantic and procedural — and episodes), with a SQLite FTS5
//! index over the confirmed content for full-text recall.
//!
//! Rows are held in insertion order; every query below is stated over that
//! order.

use vstd::prelude::*;
use crate::base::error::BluesError;
use crate::base::ids::{EpisodeId, FactId, InboxItemId, NodeId, PlanId, ProjectId};
use crate::base::memory::MemoryType;
use crate::base::provenance::{Provenance, ProvenanceView, Source, Step, StepView, SourceView, source_views, step_views};
use crate::memory::embed::{valid_embedding, EMBED_DIM};
use crate::memory::types::{HitId, CONFIDENCE_ONE};
use crate::trusted::sqlite_calls::{
    row_texts, sqlite_error_text, sqlite_execute, sqlite_execute_batch, sqlite_history,
    sqlite_open_in_memory, sqlite_query_text_pairs, sqlite_rows, text_args,
};
use crate::trusted::time_calls::now_unix_nanos;
use crate::trusted::ulid_calls::{ulid_accepts, ulid_text, ulid_value};

verus! {

/// Most confirmed records (facts and episodes together) one store holds.
pub const MAX_CONFIRMED: usize = 0xFFFF_FFFF;

/// A memory candidate waiting for approval.
#[derive(Debug, Clone)]
pub struct InboxRow {
    pub id: InboxItemId,
    pub kind: MemoryType,
    pub content: String,
    /// Parts per million.
    pub confidence: u32,
    pub provenance: Provenance,
    pub plan_id: Option<PlanId>,
    pub node_id: Option<NodeId>,
}

pub struct InboxRowView {
    pub id: InboxItemId,
    pub kind: MemoryType,
    pub content: Seq<char>,
    pub confidence: u32,
    pub provenance: ProvenanceView,
    pub plan_id: Option<PlanId>,
    pub node_id: Option<NodeId>,
}

impl View for InboxRow {
    type V = InboxRowView;

    open spec fn view(&self) -> InboxRowView {
        InboxRowView {
            id: self.id,
            kind: self.kind,
            content: self.content@,
            confidence: self.confidence,
            provenance: self.provenance@,
            plan_id: self.plan_id,
            node_id: self.node_id,
        }
    }
}

impl InboxRow {
    /// A copy with the same value.
    pub fn duplicate(&self) -> (r: InboxRow)
        ensures
            r@ == self@,
    {
        InboxRow {
            id: self.id,
            kind: self.kind,
            content: self.content.clone(),
            confidence: self.confidence,
            provenance: self.provenance.duplicate(),
            plan_id: self.plan_id,
            node_id: self.node_id,
        }
    }
}

/// An inbox row together with the project it was saved under.
pub struct InboxFull {
    pub project: ProjectId,
    pub row: InboxRow,
}

/// A confirmed record as recall reads it.
#[derive(Debug, Clone)]
pub struct ConfirmedRow {
    pub id: HitId,
    pub kind: MemoryType,
    pub content: String,
    pub embedding: Option<Vec<u32>>,
    pub provenance: Provenance,
    /// Parts per million.
    pub confidence: u32,
}

pub struct ConfirmedRowView {
    pub id: HitId,
    pub kind: MemoryType,
    pub content: Seq<char>,
    pub embedding: Option<Seq<u32>>,
    pub provenance: ProvenanceView,
    pub confidence: u32,
}

impl View for ConfirmedRow {
    type V = ConfirmedRowView;

    open spec fn view(&self) -> ConfirmedRowView {
        ConfirmedRowView {
            id: self.id,
            kind: self.kind,
            content: self.content@,
            embedding: match self.embedding {
                Some(e) => Some(e@),
                None => None,
            },
            provenance: self.provenance@,
            confidence: self.confidence,
        }
    }
}

pub struct InboxEntry {
    pub project: ProjectId,
    pub row: InboxRowView,
}

pub struct FactEntry {
    pub project: ProjectId,
    pub id: FactId,
    pub kind: MemoryType,
    pub content: Seq<char>,
    pub embedding: Seq<u32>,
    pub provenance: ProvenanceView,
    pub confidence: u32,
}

pub struct EpisodeEntry {
    pub project: ProjectId,
    pub id: EpisodeId,
    pub content: Seq<char>,
    pub embedding: Seq<u32>,
    pub provenance: ProvenanceView,
    pub confidence: u32,
}

/// The contents of a store.
pub struct StoreView {
    pub inbox: Seq<InboxEntry>,
    pub facts: Seq<FactEntry>,
    pub episodes: Seq<EpisodeEntry>,
}

struct InboxRecord {
    project: ProjectId,
    row: InboxRow,
}

struct FactRecord {
    project: ProjectId,
    id: FactId,
    kind: MemoryType,
    content: String,
    embedding: Vec<u32>,
    provenance: Provenance,
    confidence: u32,
}

struct EpisodeRecord {
    project: ProjectId,
    id: EpisodeId,
    content: String,
    embedding: Vec<u32>,
    provenance: Provenance,
    confidence: u32,
}

impl View for InboxRecord {
    type V = InboxEntry;

    closed spec fn view(&self) -> InboxEntry {
        InboxEntry { project: self.project, row: self.row@ }
    }
}

impl View for FactRecord {
    type V = FactEntry;

    closed spec fn view(&self) -> FactEntry {
        FactEntry {
            project: self.project,
            id: self.id,
            kind: self.kind,
            content: self.content@,
            embedding: self.embedding@,
            provenance: self.provenance@,
            confidence: self.confidence,
        }
    }
}

impl View for EpisodeRecord {
    type V = EpisodeEntry;

    closed spec fn view(&self) -> EpisodeEntry {
        EpisodeEntry {
            project: self.project,
            id: self.id,
            content: self.content@,
            embedding: self.embedding@,
            provenance: self.provenance@,
            confidence: self.confidence,
        }
    }
}

/// The store: rows in insertion order plus the full-text index.
pub struct SqliteStore {
    inbox: Vec<InboxRecord>,
    facts: Vec<FactRecord>,
    episodes: Vec<EpisodeRecord>,
    index: rusqlite::Connection,
}

impl View for SqliteStore {
    type V = StoreView;

    closed spec fn view(&self) -> StoreView {
        StoreView {
            inbox: self.inbox@.map_values(|r: InboxRecord| r@),
            facts: self.facts@.map_values(|r: FactRecord| r@),
            episodes: self.episodes@.map_values(|r: EpisodeRecord| r@),
        }
    }
}

/// Well-formedness of a store's contents: ids are unique within each table,
/// facts are semantic or procedural, embeddings are valid, and the confirmed
/// layers stay within `MAX_CONFIRMED` records.
pub open spec fn store_wf(v: StoreView) -> bool {
    &&& forall|i: int, j: int|
        0 <= i < j < v.inbox.len() ==> #[trigger] v.inbox[i].row.id != #[trigger] v.inbox[j].row.id
    &&& forall|i: int, j: int|
        0 <= i < j < v.facts.len() ==> #[trigger] v.facts[i].id != #[trigger] v.facts[j].id
    &&& forall|i: int, j: int|
        0 <= i < j < v.episodes.len() ==> #[trigger] v.episodes[i].id != #[trigger] v.episodes[j].id
    &&& forall|i: int| 0 <= i < v.facts.len() ==> (#[trigger] v.facts[i]).kind != MemoryType::Episodic
    &&& forall|i: int| 0 <= i < v.facts.len() ==> valid_embedding((#[trigger] v.facts[i]).embedding)
    &&& forall|i: int| 0 <= i < v.episodes.len() ==> valid_embedding((#[trigger] v.episodes[i]).embedding)
    &&& v.facts.len() + v.episodes.len() <= MAX_CONFIRMED
}

// ── inbox queries ─────────────────────────────────────────────────────────

/// Whether the inbox holds an item with id `id`.
pub open spec fn has_inbox_item(v: StoreView, id: InboxItemId) -> bool {
    exists|i: int| 0 <= i < v.inbox.len() && v.inbox[i].row.id == id
}

/// The position of inbox item `id`.
pub open spec fn inbox_pos(v: StoreView, id: InboxItemId) -> int {
    choose|i: int| 0 <= i < v.inbox.len() && v.inbox[i].row.id == id
}

/// Whether an inbox entry passes a listing's project, kind and confidence filter.
pub open spec fn inbox_selected(
    e: InboxEntry,
    project: ProjectId,
    kind: Option<MemoryType>,
    min_confidence: Option<u32>,
) -> bool {
    &&& e.project == project
    &&& (kind matches Some(k) ==> e.row.kind == k)
    &&& (min_confidence matches Some(m) ==> e.row.confidence >= m)
}

/// The first `limit` inbox rows of `project` that pass the filter, oldest first.
pub open spec fn inbox_list_spec(
    v: StoreView,
    project: ProjectId,
    kind: Option<MemoryType>,
    min_confidence: Option<u32>,
    limit: usize,
) -> Seq<InboxRowView> {
    let m = v.inbox.filter(|e: InboxEntry| inbox_selected(e, project, kind, min_confidence));
    let n = if limit < m.len() { limit as int } else { m.len() as int };
    m.take(n).map_values(|e: InboxEntry| e.row)
}


/// Schema of the full-text index: one row per confirmed record, mirrored into
/// FTS5 tables that tokenise with porter stemming over unicode61.
pub const INDEX_SCHEMA: &'static str = "CREATE TABLE IF NOT EXISTS facts (id TEXT PRIMARY KEY, project_id TEXT NOT NULL, kind TEXT NOT NULL, content TEXT NOT NULL); CREATE TABLE IF NOT EXISTS episodes (id TEXT PRIMARY KEY, project_id TEXT NOT NULL, content TEXT NOT NULL); CREATE VIRTUAL TABLE IF NOT EXISTS facts_fts USING fts5(content, content='facts', content_rowid='rowid', tokenize='porter unicode61'); CREATE VIRTUAL TABLE IF NOT EXISTS episodes_fts USING fts5(content, content='episodes', content_rowid='rowid', tokenize='porter unicode61');";

/// Records a confirmed fact in the index tables.
pub const FACT_INSERT_SQL: &'static str = "INSERT INTO facts(id, project_id, kind, content) VALUES(?1, ?2, ?3, ?4)";

/// Adds a confirmed fact's content to the full-text index.
pub const FACT_FTS_INSERT_SQL: &'static str = "INSERT INTO facts_fts(rowid, content) VALUES((SELECT rowid FROM facts WHERE id = ?1), ?2)";

/// Records a confirmed episode in the index tables.
pub const EPISODE_INSERT_SQL: &'static str = "INSERT INTO episodes(id, project_id, content) VALUES(?1, ?2, ?3)";

/// Adds a confirmed episode's content to the full-text index.
pub const EPISODE_FTS_INSERT_SQL: &'static str = "INSERT INTO episodes_fts(rowid, content) VALUES((SELECT rowid FROM episodes WHERE id = ?1), ?2)";

/// The facts and episodes of a project matching a full-text query, at most
/// `?3` of each, merged best BM25 match first; an episode row carries the kind
/// text `episodic`.
pub const FTS_QUERY_SQL: &'static str = "SELECT id, kind FROM (SELECT * FROM (SELECT facts.id AS id, facts.kind AS kind, bm25(facts_fts) AS score FROM facts_fts JOIN facts ON facts_fts.rowid = facts.rowid WHERE facts.project_id = ?1 AND facts_fts MATCH ?2 ORDER BY bm25(facts_fts) ASC LIMIT ?3) UNION ALL SELECT * FROM (SELECT episodes.id AS id, 'episodic' AS kind, bm25(episodes_fts) AS score FROM episodes_fts JOIN episodes ON episodes_fts.rowid = episodes.rowid WHERE episodes.project_id = ?1 AND episodes_fts MATCH ?2 ORDER BY bm25(episodes_fts) ASC LIMIT ?3)) ORDER BY score ASC";

/// An `Internal` error carrying the SQLite error's text after `sqlite: `.
pub fn map_sql(e: &rusqlite::Error) -> (r: BluesError)
    ensures
        r is Internal,
        "sqlite: "@.is_prefix_of(r.detail()),
{
    let mut msg = String::from_str("sqlite: ");
    let text = sqlite_error_text(e);
    msg.append(text.as_str());
    proof {
        reveal_strlit("sqlite: ");
        assert(msg@.subrange(0, 8) =~= "sqlite: "@);
    }
    BluesError::Internal(msg)
}

/// `prefix` followed by `tail`.
pub fn joined(prefix: &str, tail: &str) -> (r: String)
    ensures
        r@ == prefix@ + tail@,
{
    let mut s = String::from_str(prefix);
    s.append(tail);
    s
}

impl SqliteStore {
    /// Opens an empty store with a fresh in-memory full-text index.
    pub fn open_in_memory() -> (r: Result<SqliteStore, BluesError>)
        ensures
            r is Ok ==> r->Ok_0.wf() && r->Ok_0@.inbox.len() == 0 && r->Ok_0@.facts.len() == 0
                && r->Ok_0@.episodes.len() == 0,
            r is Ok ==> r->Ok_0.index_history() == seq![(INDEX_SCHEMA@, Seq::<Seq<char>>::empty())],
            r is Err ==> r->Err_0 is Internal,
    {
        let mut conn = match sqlite_open_in_memory() {
            Ok(c) => c,
            Err(e) => {
                return Err(map_sql(&e));
            },
        };
        match sqlite_execute_batch(&mut conn, INDEX_SCHEMA) {
            Ok(()) => {},
            Err(e) => {
                return Err(map_sql(&e));
            },
        }
        let s = SqliteStore { inbox: Vec::new(), facts: Vec::new(), episodes: Vec::new(), index: conn };
        assert(s@.inbox =~= Seq::<InboxEntry>::empty());
        assert(s@.facts =~= Seq::<FactEntry>::empty());
        assert(s@.episodes =~= Seq::<EpisodeEntry>::empty());
        Ok(s)
    }

    pub open spec fn wf(&self) -> bool {
        store_wf(self@)
    }

    /// The statements applied to the full-text index so far.
    pub closed spec fn index_history(&self) -> Seq<(Seq<char>, Seq<Seq<char>>)> {
        sqlite_history(self.index)
    }

    fn find_inbox(&self, item: InboxItemId) -> (r: Option<usize>)
        requires
            self.wf(),
        ensures
            r is None <==> !has_inbox_item(self@, item),
            r matches Some(i) ==> i == inbox_pos(self@, item) && i < self@.inbox.len(),
    {
        let mut i: usize = 0;
        while i < self.inbox.len()
            invariant
                self.wf(),
                i <= self.inbox@.len(),
                forall|j: int| 0 <= j < i ==> self@.inbox[j].row.id != item,
            decreases self.inbox@.len() - i,
        {
            if self.inbox[i].row.id == item {
                assert(self@.inbox[i as int].row.id == item);
                assert(has_inbox_item(self@, item));
                let ghost p = inbox_pos(self@, item);
                assert(p == i as int) by {
                    if p < i {
                    } else if p > i {
                        assert(self@.inbox[i as int].row.id != self@.inbox[p].row.id);
                    }
                }
                return Some(i);
            }
            i = i + 1;
        }
        None
    }

    /// Adds a candidate to the inbox of `project`. An id already in the inbox
    /// is refused (`Internal`, as a uniqueness violation).
    pub fn inbox_insert(&mut self, project: ProjectId, item: &InboxRow) -> (r: Result<(), BluesError>)
        requires
            old(self).wf(),
        ensures
            final(self).wf(),
            final(self).index_history() == old(self).index_history(),
            has_inbox_item(old(self)@, item.id) ==> r is Err && r->Err_0 is Internal && final(self)@ == old(self)@,
            !has_inbox_item(old(self)@, item.id) ==> r is Ok
                && final(self)@.inbox == old(self)@.inbox.push(InboxEntry { project, row: item@ })
                && final(self)@.facts == old(self)@.facts
                && final(self)@.episodes == old(self)@.episodes,
    {
        if self.find_inbox(item.id).is_some() {
            return Err(BluesError::Internal(String::from_str("inbox item already exists")));
        }
        let ghost before = self@;
        let rec = InboxRecord { project, row: item.duplicate() };
        self.inbox.push(rec);
        assert(self@.inbox =~= before.inbox.push(InboxEntry { project, row: item@ }));
        assert(self@.facts =~= before.facts);
        assert(self@.episodes =~= before.episodes);
        Ok(())
    }

    /// The first `limit` inbox rows of `project` matching `kind` (when given)
    /// with confidence at least `min_confidence` (when given), oldest first.
    pub fn inbox_list(
        &self,
        project: ProjectId,
        kind: Option<MemoryType>,
        min_confidence: Option<u32>,
        limit: usize,
    ) -> (r: Result<Vec<InboxRow>, BluesError>)
        requires
            self.wf(),
        ensures
            r is Ok,
            r->Ok_0@.map_values(|x: InboxRow| x@) == inbox_list_spec(self@, project, kind, min_confidence, limit),
    {
        let ghost sel = |e: InboxEntry| inbox_selected(e, project, kind, min_confidence);
        let mut out: Vec<InboxRow> = Vec::new();
        let mut i: usize = 0;
        while i < self.inbox.len()
            invariant
                i <= self.inbox@.len(),
                sel == (|e: InboxEntry| inbox_selected(e, project, kind, min_confidence)),
                ({
                    let m = self@.inbox.take(i as int).filter(sel);
                    let n = if limit < m.len() { limit as int } else { m.len() as int };
                    out@.map_values(|x: InboxRow| x@) == m.take(n).map_values(|e: InboxEntry| e.row)
                }),
            decreases self.inbox@.len() - i,
        {
            let ghost m0 = self@.inbox.take(i as int).filter(sel);
            let ghost prev = out@;
            let rec = &self.inbox[i];
            assert(self@.inbox.take(i + 1).drop_last() =~= self@.inbox.take(i as int));
            assert(self@.inbox.take(i + 1).last() == rec@);
            proof {
                reveal(Seq::filter);
            }
            let ok_kind = match kind {
                Some(k) => rec.row.kind == k,
                None => true,
            };
            let ok_conf = match min_confidence {
                Some(m) => rec.row.confidence >= m,
                None => true,
            };
            if rec.project == project && ok_kind && ok_conf && out.len() < limit {
                let x = rec.row.duplicate();
                out.push(x);
                let ghost m1 = self@.inbox.take(i + 1).filter(sel);
                assert(m1 =~= m0.push(rec@));
                assert(m1.take(m0.len() + 1int) =~= m0.take(m0.len() as int).push(rec@));
                assert(m0.take(m0.len() as int) =~= m0);
                assert(out@.map_values(|x: InboxRow| x@) =~= prev.map_values(|x: InboxRow| x@).push(x@));
            } else if rec.project == project && ok_kind && ok_conf {
                assert(out@.map_values(|x: InboxRow| x@).len() == out@.len());
                let ghost m1 = self@.inbox.take(i + 1).filter(sel);
                assert(m1 =~= m0.push(rec@));
                assert(m1.take(limit as int) =~= m0.take(limit as int));
            } else {
                assert(self@.inbox.take(i + 1).filter(sel) =~= m0);
            }
            i = i + 1;
        }
        assert(self@.inbox.take(i as int) =~= self@.inbox);
        Ok(out)
    }

    /// The inbox item `item` with the project it belongs to, if present.
    pub fn inbox_get(&self, item: InboxItemId) -> (r: Result<Option<InboxFull>, BluesError>)
        requires
            self.wf(),
        ensures
            r is Ok,
            r->Ok_0 is None <==> !has_inbox_item(self@, item),
            r->Ok_0 matches Some(f) ==> f.project == self@.inbox[inbox_pos(self@, item)].project
                && f.row@ == self@.inbox[inbox_pos(self@, item)].row,
    {
        match self.find_inbox(item) {
            Some(i) => {
                let rec = &self.inbox[i];
                Ok(Some(InboxFull { project: rec.project, row: rec.row.duplicate() }))
            },
            None => Ok(None),
        }
    }

    /// Removes inbox item `item`; `NotFound` when there is none.
    pub fn inbox_delete(&mut self, item: InboxItemId) -> (r: Result<(), BluesError>)
        requires
            old(self).wf(),
        ensures
            final(self).wf(),
            final(self).index_history() == old(self).index_history(),
            !has_inbox_item(old(self)@, item) ==> final(self)@ == old(self)@ && r is Err
                && r->Err_0 == BluesError::NotFound(r->Err_0->NotFound_0)
                && r->Err_0.detail() == "inbox item "@ + crate::trusted::ulid_calls::ulid_text(item.0),
            has_inbox_item(old(self)@, item) ==> r is Ok
                && final(self)@.inbox == old(self)@.inbox.remove(inbox_pos(old(self)@, item))
                && final(self)@.facts == old(self)@.facts
                && final(self)@.episodes == old(self)@.episodes,
    {
        match self.find_inbox(item) {
            Some(i) => {
                let ghost before = self@;
                let _ = self.inbox.remove(i);
                assert(self@.inbox =~= before.inbox.remove(i as int));
                assert(self@.facts =~= before.facts);
                assert(self@.episodes =~= before.episodes);
                Ok(())
            },
            None => {
                let t = item.to_string();
                Err(BluesError::NotFound(joined("inbox item ", t.as_str())))
            },
        }
    }
}


// ── confirmed queries ─────────────────────────────────────────────────────

pub open spec fn has_fact(v: StoreView, id: FactId) -> bool {
    exists|i: int| 0 <= i < v.facts.len() && v.facts[i].id == id
}

pub open spec fn fact_pos(v: StoreView, id: FactId) -> int {
    choose|i: int| 0 <= i < v.facts.len() && v.facts[i].id == id
}

pub open spec fn has_episode(v: StoreView, id: EpisodeId) -> bool {
    exists|i: int| 0 <= i < v.episodes.len() && v.episodes[i].id == id
}

pub open spec fn episode_pos(v: StoreView, id: EpisodeId) -> int {
    choose|i: int| 0 <= i < v.episodes.len() && v.episodes[i].id == id
}

/// How recall reads a fact.
pub open spec fn fact_row(e: FactEntry) -> ConfirmedRowView {
    ConfirmedRowView {
        id: HitId::Fact(e.id),
        kind: e.kind,
        content: e.content,
        embedding: Some(e.embedding),
        provenance: e.provenance,
        confidence: e.confidence,
    }
}

/// How recall reads an episode.
pub open spec fn episode_row(e: EpisodeEntry) -> ConfirmedRowView {
    ConfirmedRowView {
        id: HitId::Episode(e.id),
        kind: MemoryType::Episodic,
        content: e.content,
        embedding: Some(e.embedding),
        provenance: e.provenance,
        confidence: e.confidence,
    }
}

pub open spec fn fact_selected(e: FactEntry, project: ProjectId, kind: Option<MemoryType>) -> bool {
    &&& e.project == project
    &&& (kind matches Some(k) ==> e.kind == k)
}

pub open spec fn episode_selected(e: EpisodeEntry, project: ProjectId, kind: Option<MemoryType>) -> bool {
    &&& e.project == project
    &&& (kind matches Some(k) ==> k == MemoryType::Episodic)
}

/// Every confirmed record of `project` of kind `kind` (any kind when `None`):
/// facts first, then episodes, each in insertion order.
pub open spec fn confirmed_spec(v: StoreView, project: ProjectId, kind: Option<MemoryType>) -> Seq<ConfirmedRowView> {
    v.facts.filter(|e: FactEntry| fact_selected(e, project, kind)).map_values(|e: FactEntry| fact_row(e))
        + v.episodes.filter(|e: EpisodeEntry| episode_selected(e, project, kind)).map_values(
        |e: EpisodeEntry| episode_row(e),
    )
}

/// `factor` clamped to 1.0, in parts per million.
pub open spec fn clamp_factor(factor: u32) -> u32 {
    if factor > CONFIDENCE_ONE { CONFIDENCE_ONE } else { factor }
}

/// A confidence scaled by a decay factor, both in parts per million, rounded down.
pub open spec fn decayed(confidence: u32, factor: u32) -> u32 {
    ((confidence as int * clamp_factor(factor) as int) / CONFIDENCE_ONE as int) as u32
}

/// A store after one decay pass over `project` with `factor`: every confirmed
/// record of the project has its confidence scaled, everything else is kept.
pub open spec fn decayed_view(v: StoreView, project: ProjectId, factor: u32) -> StoreView {
    StoreView {
        inbox: v.inbox,
        facts: v.facts.map_values(
            |e: FactEntry|
                if e.project == project {
                    FactEntry { confidence: decayed(e.confidence, factor), ..e }
                } else {
                    e
                },
        ),
        episodes: v.episodes.map_values(
            |e: EpisodeEntry|
                if e.project == project {
                    EpisodeEntry { confidence: decayed(e.confidence, factor), ..e }
                } else {
                    e
                },
        ),
    }
}

/// The text the index stores for a memory layer.
pub open spec fn kind_text(k: MemoryType) -> Seq<char> {
    match k {
        MemoryType::Episodic => "episodic"@,
        MemoryType::Semantic => "semantic"@,
        MemoryType::Procedural => "procedural"@,
    }
}

pub fn kind_to_str(k: MemoryType) -> (r: &'static str)
    ensures
        r@ == kind_text(k),
{
    match k {
        MemoryType::Episodic => "episodic",
        MemoryType::Semantic => "semantic",
        MemoryType::Procedural => "procedural",
    }
}

/// The memory layer a stored text names, if it names one.
pub open spec fn kind_of_text(t: Seq<char>) -> Option<MemoryType> {
    if t == "episodic"@ {
        Some(MemoryType::Episodic)
    } else if t == "semantic"@ {
        Some(MemoryType::Semantic)
    } else if t == "procedural"@ {
        Some(MemoryType::Procedural)
    } else {
        None
    }
}

/// Reads a memory layer back from its stored text.
pub fn kind_from_str(s: &str) -> (r: Result<MemoryType, BluesError>)
    ensures
        r matches Ok(k) ==> kind_text(k) == s@,
        r is Ok <==> kind_of_text(s@) is Some,
        r matches Ok(k) ==> kind_of_text(s@) == Some(k),
        r is Err ==> r->Err_0 is Internal && s@ != "episodic"@ && s@ != "semantic"@ && s@ != "procedural"@,
{
    let t = String::from_str(s);
    let e = String::from_str("episodic");
    let se = String::from_str("semantic");
    let p = String::from_str("procedural");
    if t == e {
        Ok(MemoryType::Episodic)
    } else if t == se {
        Ok(MemoryType::Semantic)
    } else if t == p {
        Ok(MemoryType::Procedural)
    } else {
        Err(BluesError::Internal(joined("bad memory kind in db: ", s)))
    }
}

/// Whether `v` is a valid embedding; the check `ensure_dim` refines.
pub fn embedding_ok(v: &[u32]) -> (r: bool)
    ensures
        r == valid_embedding(v@),
{
    if v.len() != EMBED_DIM {
        return false;
    }
    let mut i: usize = 0;
    while i < v.len()
        invariant
            i <= v@.len(),
            forall|j: int| 0 <= j < i ==> #[trigger] v@[j] <= crate::memory::embed::COUNT_CAP,
        decreases v@.len() - i,
    {
        if v[i] > crate::memory::embed::COUNT_CAP {
            return false;
        }
        i = i + 1;
    }
    true
}

fn copy_counts(v: &[u32]) -> (r: Vec<u32>)
    ensures
        r@ == v@,
{
    let mut out: Vec<u32> = Vec::new();
    let mut i: usize = 0;
    while i < v.len()
        invariant
            i <= v@.len(),
            out@ == v@.take(i as int),
        decreases v@.len() - i,
    {
        out.push(v[i]);
        assert(v@.take(i + 1) =~= v@.take(i as int).push(v@[i as int]));
        i = i + 1;
    }
    assert(v@.take(i as int) =~= v@);
    out
}

fn fact_record_row(r: &FactRecord) -> (out: ConfirmedRow)
    ensures
        out@ == fact_row(r@),
{
    ConfirmedRow {
        id: HitId::Fact(r.id),
        kind: r.kind,
        content: r.content.clone(),
        embedding: Some(r.embedding.clone()),
        provenance: r.provenance.duplicate(),
        confidence: r.confidence,
    }
}

fn episode_record_row(r: &EpisodeRecord) -> (out: ConfirmedRow)
    ensures
        out@ == episode_row(r@),
{
    ConfirmedRow {
        id: HitId::Episode(r.id),
        kind: MemoryType::Episodic,
        content: r.content.clone(),
        embedding: Some(r.embedding.clone()),
        provenance: r.provenance.duplicate(),
        confidence: r.confidence,
    }
}

impl SqliteStore {
    fn find_fact(&self, id: FactId) -> (r: Option<usize>)
        requires
            self.wf(),
        ensures
            r is None <==> !has_fact(self@, id),
            r matches Some(i) ==> i == fact_pos(self@, id) && i < self@.facts.len(),
    {
        let mut i: usize = 0;
        while i < self.facts.len()
            invariant
                self.wf(),
                i <= self.facts@.len(),
                forall|j: int| 0 <= j < i ==> self@.facts[j].id != id,
            decreases self.facts@.len() - i,
        {
            if self.facts[i].id == id {
                assert(self@.facts[i as int].id == id);
                assert(has_fact(self@, id));
                let ghost p = fact_pos(self@, id);
                assert(p == i as int) by {
                    if p > i {
                        assert(self@.facts[i as int].id != self@.facts[p].id);
                    }
                }
                return Some(i);
            }
            i = i + 1;
        }
        None
    }

    fn find_episode(&self, id: EpisodeId) -> (r: Option<usize>)
        requires
            self.wf(),
        ensures
            r is None <==> !has_episode(self@, id),
            r matches Some(i) ==> i == episode_pos(self@, id) && i < self@.episodes.len(),
    {
        let mut i: usize = 0;
        while i < self.episodes.len()
            invariant
                self.wf(),
                i <= self.episodes@.len(),
                forall|j: int| 0 <= j < i ==> self@.episodes[j].id != id,
            decreases self.episodes@.len() - i,
        {
            if self.episodes[i].id == id {
                assert(self@.episodes[i as int].id == id);
                assert(has_episode(self@, id));
                let ghost p = episode_pos(self@, id);
                assert(p == i as int) by {
                    if p > i {
                        assert(self@.episodes[i as int].id != self@.episodes[p].id);
                    }
                }
                return Some(i);
            }
            i = i + 1;
        }
        None
    }

    /// Confirms a fact (semantic or procedural) under `project` and indexes its
    /// content. Refused with `Internal` when the id is taken, the embedding is
    /// not valid, the store is full, or the index refuses the row.
    pub fn fact_insert(
        &mut self,
        project: ProjectId,
        id: FactId,
        kind: MemoryType,
        content: &str,
        embedding: &[u32],
        provenance: &Provenance,
        confidence: u32,
    ) -> (r: Result<(), BluesError>)
        requires
            old(self).wf(),
            kind != MemoryType::Episodic,
        ensures
            final(self).wf(),
            r is Err ==> final(self)@ == old(self)@ && r->Err_0 is Internal,
            has_fact(old(self)@, id) || !valid_embedding(embedding@)
                || old(self)@.facts.len() + old(self)@.episodes.len() >= MAX_CONFIRMED ==> r is Err
                && final(self).index_history() == old(self).index_history(),
            r is Ok ==> final(self)@.facts == old(self)@.facts.push(
                FactEntry {
                    project,
                    id,
                    kind,
                    content: content@,
                    embedding: embedding@,
                    provenance: provenance@,
                    confidence,
                },
            ) && final(self)@.inbox == old(self)@.inbox && final(self)@.episodes == old(self)@.episodes,
            r is Ok ==> final(self).index_history() == old(self).index_history().push(
                (FACT_INSERT_SQL@, seq![ulid_text(id.0), ulid_text(project.0), kind_text(kind), content@]),
            ).push((FACT_FTS_INSERT_SQL@, seq![ulid_text(id.0), content@])),
    {
        if self.find_fact(id).is_some() {
            return Err(BluesError::Internal(String::from_str("fact already exists")));
        }
        if !embedding_ok(embedding) {
            return Err(BluesError::Internal(String::from_str("embedding is not a valid bucket vector")));
        }
        if self.facts.len() + self.episodes.len() >= MAX_CONFIRMED {
            return Err(BluesError::Internal(String::from_str("store capacity exhausted")));
        }
        let id_text = id.to_string();
        let mut args: Vec<String> = Vec::new();
        args.push(id_text.clone());
        args.push(project.to_string());
        args.push(String::from_str(kind_to_str(kind)));
        args.push(String::from_str(content));
        assert(text_args(args@) =~= seq![ulid_text(id.0), ulid_text(project.0), kind_text(kind), content@]);
        let ghost h0 = self.index_history();
        match sqlite_execute(&mut self.index, FACT_INSERT_SQL, &args) {
            Ok(_) => {},
            Err(e) => {
                return Err(map_sql(&e));
            },
        }
        let mut fts_args: Vec<String> = Vec::new();
        fts_args.push(id_text);
        fts_args.push(String::from_str(content));
        assert(text_args(fts_args@) =~= seq![ulid_text(id.0), content@]);
        match sqlite_execute(&mut self.index, FACT_FTS_INSERT_SQL, &fts_args) {
            Ok(_) => {},
            Err(e) => {
                return Err(map_sql(&e));
            },
        }
        let ghost before = self@;
        let rec = FactRecord {
            project,
            id,
            kind,
            content: String::from_str(content),
            embedding: copy_counts(embedding),
            provenance: provenance.duplicate(),
            confidence,
        };
        self.facts.push(rec);
        assert(self@.facts =~= before.facts.push(rec@));
        assert(self@.inbox =~= before.inbox);
        assert(self@.episodes =~= before.episodes);
        Ok(())
    }

    /// Confirms an episode under `project` and indexes its content. Refused with
    /// `Internal` when the id is taken, the embedding is not valid, the store is
    /// full, or the index refuses the row.
    pub fn episode_insert(
        &mut self,
        project: ProjectId,
        id: EpisodeId,
        content: &str,
        embedding: &[u32],
        provenance: &Provenance,
        confidence: u32,
    ) -> (r: Result<(), BluesError>)
        requires
            old(self).wf(),
        ensures
            final(self).wf(),
            r is Err ==> final(self)@ == old(self)@ && r->Err_0 is Internal,
            has_episode(old(self)@, id) || !valid_embedding(embedding@)
                || old(self)@.facts.len() + old(self)@.episodes.len() >= MAX_CONFIRMED ==> r is Err
                && final(self).index_history() == old(self).index_history(),
            r is Ok ==> final(self)@.episodes == old(self)@.episodes.push(
                EpisodeEntry {
                    project,
                    id,
                    content: content@,
                    embedding: embedding@,
                    provenance: provenance@,
                    confidence,
                },
            ) && final(self)@.inbox == old(self)@.inbox && final(self)@.facts == old(self)@.facts,
            r is Ok ==> final(self).index_history() == old(self).index_history().push(
                (EPISODE_INSERT_SQL@, seq![ulid_text(id.0), ulid_text(project.0), content@]),
            ).push((EPISODE_FTS_INSERT_SQL@, seq![ulid_text(id.0), content@])),
    {
        if self.find_episode(id).is_some() {
            return Err(BluesError::Internal(String::from_str("episode already exists")));
        }
        if !embedding_ok(embedding) {
            return Err(BluesError::Internal(String::from_str("embedding is not a valid bucket vector")));
        }
        if self.facts.len() + self.episodes.len() >= MAX_CONFIRMED {
            return Err(BluesError::Internal(String::from_str("store capacity exhausted")));
        }
        let id_text = id.to_string();
        let mut args: Vec<String> = Vec::new();
        args.push(id_text.clone());
        args.push(project.to_string());
        args.push(String::from_str(content));
        assert(text_args(args@) =~= seq![ulid_text(id.0), ulid_text(project.0), content@]);
        match sqlite_execute(&mut self.index, EPISODE_INSERT_SQL, &args) {
            Ok(_) => {},
            Err(e) => {
                return Err(map_sql(&e));
            },
        }
        let mut fts_args: Vec<String> = Vec::new();
        fts_args.push(id_text);
        fts_args.push(String::from_str(content));
        assert(text_args(fts_args@) =~= seq![ulid_text(id.0), content@]);
        match sqlite_execute(&mut self.index, EPISODE_FTS_INSERT_SQL, &fts_args) {
            Ok(_) => {},
            Err(e) => {
                return Err(map_sql(&e));
            },
        }
        let ghost before = self@;
        let rec = EpisodeRecord {
            project,
            id,
            content: String::from_str(content),
            embedding: copy_counts(embedding),
            provenance: provenance.duplicate(),
            confidence,
        };
        self.episodes.push(rec);
        assert(self@.episodes =~= before.episodes.push(rec@));
        assert(self@.inbox =~= before.inbox);
        assert(self@.facts =~= before.facts);
        Ok(())
    }

    /// The fact `id`; `NotFound` when there is none.
    pub fn fact_get(&self, id: FactId) -> (r: Result<ConfirmedRow, BluesError>)
        requires
            self.wf(),
        ensures
            r is Ok <==> has_fact(self@, id),
            r matches Ok(row) ==> row@ == fact_row(self@.facts[fact_pos(self@, id)]),
            r is Err ==> r->Err_0 is NotFound
                && r->Err_0.detail() == "fact "@ + crate::trusted::ulid_calls::ulid_text(id.0),
    {
        match self.find_fact(id) {
            Some(i) => Ok(fact_record_row(&self.facts[i])),
            None => {
                let t = id.to_string();
                Err(BluesError::NotFound(joined("fact ", t.as_str())))
            },
        }
    }

    /// The episode `id`; `NotFound` when there is none.
    pub fn episode_get(&self, id: EpisodeId) -> (r: Result<ConfirmedRow, BluesError>)
        requires
            self.wf(),
        ensures
            r is Ok <==> has_episode(self@, id),
            r matches Ok(row) ==> row@ == episode_row(self@.episodes[episode_pos(self@, id)]),
            r is Err ==> r->Err_0 is NotFound
                && r->Err_0.detail() == "episode "@ + crate::trusted::ulid_calls::ulid_text(id.0),
    {
        match self.find_episode(id) {
            Some(i) => Ok(episode_record_row(&self.episodes[i])),
            None => {
                let t = id.to_string();
                Err(BluesError::NotFound(joined("episode ", t.as_str())))
            },
        }
    }

    /// The provenance of fact `id`; `NotFound` when there is none.
    pub fn fact_provenance(&self, id: FactId) -> (r: Result<Provenance, BluesError>)
        requires
            self.wf(),
        ensures
            r is Ok <==> has_fact(self@, id),
            r matches Ok(p) ==> p@ == self@.facts[fact_pos(self@, id)].provenance,
            r is Err ==> r->Err_0 is NotFound
                && r->Err_0.detail() == "fact "@ + crate::trusted::ulid_calls::ulid_text(id.0),
    {
        match self.fact_get(id) {
            Ok(row) => Ok(row.provenance),
            Err(e) => Err(e),
        }
    }

    /// Every confirmed record of `project` of kind `kind` (any when `None`):
    /// facts first, then episodes, in insertion order.
    pub fn confirmed_all(&self, project: ProjectId, kind: Option<MemoryType>) -> (r: Result<
        Vec<ConfirmedRow>,
        BluesError,
    >)
        requires
            self.wf(),
        ensures
            r is Ok,
            r->Ok_0@.map_values(|x: ConfirmedRow| x@) == confirmed_spec(self@, project, kind),
    {
        let ghost fsel = |e: FactEntry| fact_selected(e, project, kind);
        let ghost esel = |e: EpisodeEntry| episode_selected(e, project, kind);
        let mut out: Vec<ConfirmedRow> = Vec::new();
        let mut i: usize = 0;
        while i < self.facts.len()
            invariant
                i <= self.facts@.len(),
                fsel == (|e: FactEntry| fact_selected(e, project, kind)),
                out@.map_values(|x: ConfirmedRow| x@) == self@.facts.take(i as int).filter(fsel).map_values(
                    |e: FactEntry| fact_row(e),
                ),
            decreases self.facts@.len() - i,
        {
            let ghost prev = out@;
            let rec = &self.facts[i];
            assert(self@.facts.take(i + 1).drop_last() =~= self@.facts.take(i as int));
            assert(self@.facts.take(i + 1).last() == rec@);
            proof {
                reveal(Seq::filter);
            }
            let ok_kind = match kind {
                Some(k) => rec.kind == k,
                None => true,
            };
            if rec.project == project && ok_kind {
                let x = fact_record_row(rec);
                out.push(x);
                assert(out@.map_values(|x: ConfirmedRow| x@) =~= prev.map_values(|x: ConfirmedRow| x@).push(x@));
            }
            i = i + 1;
        }
        assert(self@.facts.take(i as int) =~= self@.facts);
        let ghost facts_part = out@.map_values(|x: ConfirmedRow| x@);
        let ghost nf = out@.len();
        let mut j: usize = 0;
        while j < self.episodes.len()
            invariant
                j <= self.episodes@.len(),
                esel == (|e: EpisodeEntry| episode_selected(e, project, kind)),
                nf <= out@.len(),
                out@.map_values(|x: ConfirmedRow| x@) == facts_part + self@.episodes.take(j as int).filter(esel).map_values(
                    |e: EpisodeEntry| episode_row(e),
                ),
            decreases self.episodes@.len() - j,
        {
            let ghost prev = out@;
            let rec = &self.episodes[j];
            assert(self@.episodes.take(j + 1).drop_last() =~= self@.episodes.take(j as int));
            assert(self@.episodes.take(j + 1).last() == rec@);
            proof {
                reveal(Seq::filter);
            }
            let ok_kind = match kind {
                Some(k) => k == MemoryType::Episodic,
                None => true,
            };
            if rec.project == project && ok_kind {
                let x = episode_record_row(rec);
                out.push(x);
                assert(out@.map_values(|x: ConfirmedRow| x@) =~= prev.map_values(|x: ConfirmedRow| x@).push(x@));
                assert(self@.episodes.take(j + 1).filter(esel).map_values(|e: EpisodeEntry| episode_row(e))
                    =~= self@.episodes.take(j as int).filter(esel).map_values(|e: EpisodeEntry| episode_row(e)).push(x@));
            }
            j = j + 1;
        }
        assert(self@.episodes.take(j as int) =~= self@.episodes);
        Ok(out)
    }

    /// Scales the confidence of every confirmed record of `project` by `factor`
    /// (parts per million, clamped to 1.0) and returns how many records it touched.
    pub fn decay(&mut self, project: ProjectId, factor: u32) -> (r: Result<usize, BluesError>)
        requires
            old(self).wf(),
        ensures
            final(self).wf(),
            final(self).index_history() == old(self).index_history(),
            r is Ok,
            final(self)@.inbox == old(self)@.inbox,
            final(self)@.facts.len() == old(self)@.facts.len(),
            final(self)@.episodes.len() == old(self)@.episodes.len(),
            forall|i: int| 0 <= i < old(self)@.facts.len() ==> {
                let e = #[trigger] old(self)@.facts[i];
                final(self)@.facts[i] == (if e.project == project {
                    FactEntry { confidence: decayed(e.confidence, factor), ..e }
                } else {
                    e
                })
            },
            forall|i: int| 0 <= i < old(self)@.episodes.len() ==> {
                let e = #[trigger] old(self)@.episodes[i];
                final(self)@.episodes[i] == (if e.project == project {
                    EpisodeEntry { confidence: decayed(e.confidence, factor), ..e }
                } else {
                    e
                })
            },
            r->Ok_0 == old(self)@.facts.filter(|e: FactEntry| e.project == project).len()
                + old(self)@.episodes.filter(|e: EpisodeEntry| e.project == project).len(),
            final(self)@ == decayed_view(old(self)@, project, factor),
    {
        let f: u64 = if factor > CONFIDENCE_ONE { CONFIDENCE_ONE as u64 } else { factor as u64 };
        let ghost old_v = self@;
        let ghost h0 = self.index_history();
        let ghost fp = |e: FactEntry| e.project == project;
        let ghost ep = |e: EpisodeEntry| e.project == project;
        let mut touched: usize = 0;
        let mut i: usize = 0;
        while i < self.facts.len()
            invariant
                i <= self.facts@.len(),
                store_wf(old_v),
                store_wf(self@),
                self.index_history() == h0,
                self.facts@.len() == old_v.facts.len(),
                self@.inbox == old_v.inbox,
                self@.episodes == old_v.episodes,
                f == clamp_factor(factor),
                fp == (|e: FactEntry| e.project == project),
                touched == old_v.facts.take(i as int).filter(fp).len(),
                touched <= i,
                forall|k: int| 0 <= k < i ==> {
                    let e = #[trigger] old_v.facts[k];
                    self@.facts[k] == (if e.project == project {
                        FactEntry { confidence: decayed(e.confidence, factor), ..e }
                    } else {
                        e
                    })
                },
                forall|k: int| i <= k < self.facts@.len() ==> #[trigger] self@.facts[k] == old_v.facts[k],
            decreases self.facts@.len() - i,
        {
            proof {
                reveal(Seq::filter);
            }
            assert(old_v.facts.take(i + 1).drop_last() =~= old_v.facts.take(i as int));
            assert(old_v.facts.take(i + 1).last() == old_v.facts[i as int]);
            if self.facts[i].project == project {
                let c = self.facts[i].confidence;
                assert((c as int) * (f as int) <= 0xFFFF_FFFF * 1_000_000) by (nonlinear_arith)
                    requires
                        0 <= c <= 0xFFFF_FFFF,
                        0 <= f <= 1_000_000,
                ;
                let nc: u32 = ((c as u64 * f) / (CONFIDENCE_ONE as u64)) as u32;
                assert(nc == decayed(c, factor)) by {
                    assert((c as int * f as int) / 1_000_000 <= c as int) by (nonlinear_arith)
                        requires
                            0 <= f <= 1_000_000,
                            0 <= c,
                    ;
                }
                let ghost before = self@;
                self.facts[i].confidence = nc;
                assert(self@.facts =~= before.facts.update(i as int, FactEntry { confidence: nc, ..before.facts[i as int] }));
                touched = touched + 1;
            }
            i = i + 1;
        }
        assert(old_v.facts.take(i as int) =~= old_v.facts);
        let ghost mid = self@;
        let mut j: usize = 0;
        while j < self.episodes.len()
            invariant
                j <= self.episodes@.len(),
                store_wf(old_v),
                store_wf(self@),
                self.index_history() == h0,
                self.episodes@.len() == old_v.episodes.len(),
                self@.inbox == old_v.inbox,
                self@.facts == mid.facts,
                f == clamp_factor(factor),
                ep == (|e: EpisodeEntry| e.project == project),
                touched == old_v.facts.filter(fp).len() + old_v.episodes.take(j as int).filter(ep).len(),
                old_v.facts.filter(fp).len() <= old_v.facts.len(),
                old_v.episodes.take(j as int).filter(ep).len() <= j,
                old_v.facts.len() + old_v.episodes.len() <= MAX_CONFIRMED,
                forall|k: int| 0 <= k < j ==> {
                    let e = #[trigger] old_v.episodes[k];
                    self@.episodes[k] == (if e.project == project {
                        EpisodeEntry { confidence: decayed(e.confidence, factor), ..e }
                    } else {
                        e
                    })
                },
                forall|k: int| j <= k < self.episodes@.len() ==> #[trigger] self@.episodes[k] == old_v.episodes[k],
            decreases self.episodes@.len() - j,
        {
            proof {
                reveal(Seq::filter);
            }
            assert(old_v.episodes.take(j + 1).drop_last() =~= old_v.episodes.take(j as int));
            assert(old_v.episodes.take(j + 1).last() == old_v.episodes[j as int]);
            assert(self@.episodes[j as int] == old_v.episodes[j as int]);
            assert(self@.episodes[j as int].project == self.episodes@[j as int].project);
            if self.episodes[j].project == project {
                let c = self.episodes[j].confidence;
                assert((c as int) * (f as int) <= 0xFFFF_FFFF * 1_000_000) by (nonlinear_arith)
                    requires
                        0 <= c <= 0xFFFF_FFFF,
                        0 <= f <= 1_000_000,
                ;
                let nc: u32 = ((c as u64 * f) / (CONFIDENCE_ONE as u64)) as u32;
                assert(nc == decayed(c, factor)) by {
                    assert((c as int * f as int) / 1_000_000 <= c as int) by (nonlinear_arith)
                        requires
                            0 <= f <= 1_000_000,
                            0 <= c,
                    ;
                }
                let ghost before = self@;
                self.episodes[j].confidence = nc;
                assert(self@.episodes =~= before.episodes.update(j as int, EpisodeEntry { confidence: nc, ..before.episodes[j as int] }));
                touched = touched + 1;
            }
            j = j + 1;
        }
        assert(old_v.episodes.take(j as int) =~= old_v.episodes);
        assert(self@.facts =~= mid.facts);
        assert(self@.facts =~= decayed_view(old_v, project, factor).facts);
        assert(self@.episodes =~= decayed_view(old_v, project, factor).episodes);
        Ok(touched)
    }
}


// ── full-text search and provenance helpers ───────────────────────────────

/// The FTS5 query for a free-text query: its tokens joined with ` OR `.
pub open spec fn fts_query_text(q: Seq<char>) -> Seq<char> {
    crate::text::join_with(crate::text::tokens(q), " OR "@)
}

/// Defangs FTS5 metacharacters: keeps only the alphanumeric tokens of `q`
/// (ASCII-lowercased) and ORs them together.
pub fn sanitize_fts(q: &str) -> (r: String)
    ensures
        r@ == fts_query_text(q@),
{
    let toks = crate::text::tokenize(q);
    crate::text::join_strings(&toks, " OR ")
}

proof fn lemma_join_nonempty(parts: Seq<Seq<char>>, sep: Seq<char>)
    requires
        parts.len() > 0,
        forall|i: int| 0 <= i < parts.len() ==> (#[trigger] parts[i]).len() > 0,
    ensures
        crate::text::join_with(parts, sep).len() > 0,
    decreases parts.len(),
{
    if parts.len() > 1 {
        lemma_join_nonempty(parts.drop_last(), sep);
    }
}

proof fn lemma_scan_tokens_nonempty(s: Seq<char>)
    ensures
        forall|i: int| 0 <= i < crate::text::scan_tokens(s).0.len() ==> (#[trigger] crate::text::scan_tokens(s).0[i]).len() > 0,
    decreases s.len(),
{
    if s.len() > 0 {
        lemma_scan_tokens_nonempty(s.drop_last());
        let (d0, c0) = crate::text::scan_tokens(s.drop_last());
        let (d1, c1) = crate::text::scan_tokens(s);
        assert forall|i: int| 0 <= i < d1.len() implies (#[trigger] d1[i]).len() > 0 by {
            if i < d0.len() {
                assert(d1[i] == d0[i]);
            }
        }
    }
}

/// Every token is non-empty, so the FTS query is empty exactly when there are no tokens.
pub proof fn lemma_fts_query_empty(q: Seq<char>)
    ensures
        fts_query_text(q).len() == 0 <==> crate::text::tokens(q).len() == 0,
{
    lemma_scan_tokens_nonempty(q);
    let t = crate::text::tokens(q);
    assert forall|i: int| 0 <= i < t.len() implies (#[trigger] t[i]).len() > 0 by {
        let (done, cur) = crate::text::scan_tokens(q);
        if i < done.len() {
            assert(t[i] == done[i]);
        }
    }
    if t.len() > 0 {
        lemma_join_nonempty(t, " OR "@);
    }
}

/// The hit a row of the full-text query names: its kind text must name a
/// layer and its id text must be a ULID; an `episodic` row names an episode,
/// any other a fact of that layer.
pub open spec fn decode_hit_row(row: (Seq<char>, Seq<char>)) -> Option<(HitId, MemoryType)> {
    match kind_of_text(row.1) {
        Some(k) => if !ulid_accepts(row.0) {
            None
        } else if k == MemoryType::Episodic {
            Some((HitId::Episode(EpisodeId(ulid_value(row.0))), k))
        } else {
            Some((HitId::Fact(FactId(ulid_value(row.0))), k))
        },
        None => None,
    }
}

/// The hits `rows` name, in order, or `None` when some row names none.
pub open spec fn decode_fts_rows_spec(rows: Seq<(Seq<char>, Seq<char>)>) -> Option<Seq<(HitId, MemoryType)>>
    decreases rows.len(),
{
    if rows.len() == 0 {
        Some(Seq::empty())
    } else {
        match decode_fts_rows_spec(rows.drop_last()) {
            Some(prev) => match decode_hit_row(rows.last()) {
                Some(h) => Some(prev.push(h)),
                None => None,
            },
            None => None,
        }
    }
}

/// Once a row names no hit, no longer prefix decodes.
proof fn lemma_decode_rows_stuck(rows: Seq<(Seq<char>, Seq<char>)>, i: int)
    requires
        0 <= i < rows.len(),
        decode_hit_row(rows[i]) is None,
    ensures
        decode_fts_rows_spec(rows) is None,
    decreases rows.len(),
{
    if i < rows.len() - 1 {
        lemma_decode_rows_stuck(rows.drop_last(), i);
    }
}

/// Turns the rows the full-text query returned into hits, in order: each
/// row's kind text is read as a layer, then its id text is parsed as an
/// episode id (kind `episodic`) or a fact id. A row that does not parse is
/// refused (`Internal`).
pub fn decode_fts_rows(rows: &Vec<(String, String)>) -> (r: Result<Vec<(HitId, MemoryType)>, BluesError>)
    ensures
        r is Ok <==> decode_fts_rows_spec(row_texts(rows@)) is Some,
        r is Ok ==> Some(r->Ok_0@) == decode_fts_rows_spec(row_texts(rows@)),
        r is Err ==> r->Err_0 is Internal,
{
    let ghost rv = row_texts(rows@);
    let mut out: Vec<(HitId, MemoryType)> = Vec::new();
    let mut i: usize = 0;
    while i < rows.len()
        invariant
            i <= rows@.len(),
            rv == row_texts(rows@),
            decode_fts_rows_spec(rv.take(i as int)) == Some(out@),
        decreases rows@.len() - i,
    {
        assert(rv.take(i + 1).drop_last() =~= rv.take(i as int));
        assert(rv.take(i + 1).last() == (rows@[i as int].0@, rows@[i as int].1@));
        let kind = match kind_from_str(rows[i].1.as_str()) {
            Ok(k) => k,
            Err(e) => {
                proof {
                    lemma_decode_rows_stuck(rv, i as int);
                }
                return Err(e);
            },
        };
        match kind {
            MemoryType::Episodic => match EpisodeId::parse_str(rows[i].0.as_str()) {
                Ok(id) => {
                    out.push((HitId::Episode(id), kind));
                },
                Err(_) => {
                    proof {
                        lemma_decode_rows_stuck(rv, i as int);
                    }
                    return Err(BluesError::Internal(joined("episode id decode: ", rows[i].0.as_str())));
                },
            },
            _ => match FactId::parse_str(rows[i].0.as_str()) {
                Ok(id) => {
                    out.push((HitId::Fact(id), kind));
                },
                Err(_) => {
                    proof {
                        lemma_decode_rows_stuck(rv, i as int);
                    }
                    return Err(BluesError::Internal(joined("fact id decode: ", rows[i].0.as_str())));
                },
            },
        }
        i = i + 1;
    }
    assert(rv.take(i as int) =~= rv);
    Ok(out)
}

/// The `LIMIT` a candidate count becomes: itself, or no limit (-1) when it
/// does not fit a 64-bit signed integer.
pub open spec fn fts_limit(limit: usize) -> i64 {
    if limit as int <= 0x7FFF_FFFF_FFFF_FFFF { limit as i64 } else { -1i64 }
}

/// The parameters of both full-text queries: the project's id text and the
/// FTS query built from `query`.
pub open spec fn fts_args(project: ProjectId, query: Seq<char>) -> Seq<Seq<char>> {
    seq![ulid_text(project.0), fts_query_text(query)]
}

/// The full-text candidates of `project` for `query` on an index built by
/// `history`: none for a blank or token-free query; otherwise the hits the
/// rows of the full-text query name (`None` when a row names none).
pub open spec fn fts_hits(
    history: Seq<(Seq<char>, Seq<Seq<char>>)>,
    project: ProjectId,
    query: Seq<char>,
    limit: usize,
) -> Option<Seq<(HitId, MemoryType)>> {
    if crate::text::is_blank_text(query) || crate::text::tokens(query).len() == 0 {
        Some(Seq::empty())
    } else {
        decode_fts_rows_spec(sqlite_rows(history, FTS_QUERY_SQL@, fts_args(project, query), fts_limit(limit)))
    }
}

/// Full-text candidates of `project` for `query`: at most `limit` facts and
/// `limit` episodes, merged best BM25 match first by the index, as
/// `decode_fts_rows` reads them. A query without alphanumeric tokens matches
/// nothing and asks the index nothing.
pub fn fts_search_in(
    index: &rusqlite::Connection,
    project: ProjectId,
    query: &str,
    limit: usize,
) -> (r: Result<Vec<(HitId, MemoryType)>, BluesError>)
    ensures
        crate::text::is_blank_text(query@) || crate::text::tokens(query@).len() == 0 ==> r is Ok,
        r is Ok ==> fts_hits(sqlite_history(*index), project, query@, limit) == Some(r->Ok_0@),
        fts_hits(sqlite_history(*index), project, query@, limit) is None ==> r is Err,
        r is Err ==> r->Err_0 is Internal,
{
    if crate::text::is_blank(query) {
        return Ok(Vec::new());
    }
    let q = sanitize_fts(query);
    proof {
        lemma_fts_query_empty(query@);
    }
    if q.as_str().unicode_len() == 0 {
        return Ok(Vec::new());
    }
    let lim: i64 = if (limit as u64) <= 0x7FFF_FFFF_FFFF_FFFFu64 { limit as i64 } else { -1 };
    let mut args: Vec<String> = Vec::new();
    args.push(project.to_string());
    args.push(q);
    assert(text_args(args@) =~= fts_args(project, query@));
    let rows = match sqlite_query_text_pairs(index, FTS_QUERY_SQL, &args, lim) {
        Ok(rows) => rows,
        Err(e) => {
            return Err(map_sql(&e));
        },
    };
    decode_fts_rows(&rows)
}

impl SqliteStore {
    /// Full-text candidates of `project` for `query`; see [`fts_search_in`].
    pub fn fts_search(&self, project: ProjectId, query: &str, limit: usize) -> (r: Result<
        Vec<(HitId, MemoryType)>,
        BluesError,
    >)
        ensures
            crate::text::is_blank_text(query@) || crate::text::tokens(query@).len() == 0 ==> r is Ok,
            r is Ok ==> fts_hits(self.index_history(), project, query@, limit) == Some(r->Ok_0@),
            fts_hits(self.index_history(), project, query@, limit) is None ==> r is Err,
            r is Err ==> r->Err_0 is Internal,
    {
        fts_search_in(&self.index, project, query, limit)
    }
}

/// Appends an audit step — `action` done by `by`, stamped with the current
/// time — to the provenance chain; the sources are kept.
pub fn attach_step(p: &mut Provenance, action: &str, by: &str)
    ensures
        final(p)@.sources == old(p)@.sources,
        final(p)@.chain.len() == old(p)@.chain.len() + 1,
        final(p)@.chain == old(p)@.chain.push(
            StepView { at: final(p)@.chain.last().at, action: action@, by: by@ },
        ),
{
    let at = now_unix_nanos();
    let step = Step { at, action: String::from_str(action), by: String::from_str(by) };
    let ghost before = p.chain@;
    p.chain.push(step);
    assert(step_views(p.chain@) =~= step_views(before).push(step@));
}

/// The provenance of a write that brings no chain of its own: its source, if
/// named, as user input, and an empty chain.
pub fn default_provenance(source: Option<&str>) -> (r: Provenance)
    ensures
        r@.chain.len() == 0,
        source matches Some(s) ==> r@.sources == seq![SourceView::User { input: s@ }],
        source is None ==> r@.sources.len() == 0,
{
    let mut sources: Vec<Source> = Vec::new();
    match source {
        Some(s) => {
            let x = Source::User { input: String::from_str(s) };
            sources.push(x);
            assert(source_views(sources@) =~= seq![SourceView::User { input: s@ }]);
        },
        None => {},
    }
    let p = Provenance { sources, chain: Vec::new() };
    assert(p@.chain =~= Seq::<StepView>::empty());
    p
}

/// The detail of the dimension-mismatch error for an embedding of `len` entries.
pub open spec fn dim_mismatch_text(len: nat) -> Seq<char> {
    "embedding dim mismatch: got "@ + crate::text::decimal(len) + ", want 128"@
}

/// Checks that an embedding has `EMBED_DIM` entries.
pub fn ensure_dim(v: &[u32]) -> (r: Result<(), BluesError>)
    ensures
        r is Ok <==> v@.len() == EMBED_DIM,
        r is Err ==> r->Err_0 is Internal && r->Err_0.detail() == dim_mismatch_text(v@.len()),
{
    if v.len() != EMBED_DIM {
        let n = crate::text::decimal_text(v.len() as u64);
        let mut msg = String::from_str("embedding dim mismatch: got ");
        msg.append(n.as_str());
        msg.append(", want 128");
        return Err(BluesError::Internal(msg));
    }
    Ok(())
}


// ── confirmed records by hit id ───────────────────────────────────────────

pub open spec fn hit_exists(v: StoreView, id: HitId) -> bool {
    match id {
        HitId::Fact(f) => has_fact(v, f),
        HitId::Episode(e) => has_episode(v, e),
    }
}

pub open spec fn hit_project(v: StoreView, id: HitId) -> ProjectId {
    match id {
        HitId::Fact(f) => v.facts[fact_pos(v, f)].project,
        HitId::Episode(e) => v.episodes[episode_pos(v, e)].project,
    }
}

pub open spec fn hit_row(v: StoreView, id: HitId) -> ConfirmedRowView {
    match id {
        HitId::Fact(f) => fact_row(v.facts[fact_pos(v, f)]),
        HitId::Episode(e) => episode_row(v.episodes[episode_pos(v, e)]),
    }
}

impl SqliteStore {
    /// The project and layer of the confirmed record `id`, if there is one.
    pub fn locate(&self, id: HitId) -> (r: Option<(ProjectId, MemoryType)>)
        requires
            self.wf(),
        ensures
            r is Some <==> hit_exists(self@, id),
            r matches Some(p) ==> p.0 == hit_project(self@, id) && p.1 == hit_row(self@, id).kind,
    {
        match id {
            HitId::Fact(f) => match self.find_fact(f) {
                Some(i) => Some((self.facts[i].project, self.facts[i].kind)),
                None => None,
            },
            HitId::Episode(e) => match self.find_episode(e) {
                Some(i) => Some((self.episodes[i].project, MemoryType::Episodic)),
                None => None,
            },
        }
    }

    /// The confirmed record `id`; `NotFound` when there is none.
    pub fn hit_get(&self, id: HitId) -> (r: Result<ConfirmedRow, BluesError>)
        requires
            self.wf(),
        ensures
            r is Ok <==> hit_exists(self@, id),
            r matches Ok(row) ==> row@ == hit_row(self@, id),
            r is Err ==> r->Err_0 is NotFound,
    {
        match id {
            HitId::Fact(f) => self.fact_get(f),
            HitId::Episode(e) => self.episode_get(e),
        }
    }
}

/// There are as many distinct stored records as facts and episodes together,
/// so a duplicate-free list of stored records is no longer than that.
pub proof fn lemma_distinct_hits_bounded(v: StoreView, s: Seq<HitId>)
    requires
        store_wf(v),
        s.no_duplicates(),
        forall|i: int| 0 <= i < s.len() ==> hit_exists(v, #[trigger] s[i]),
    ensures
        s.len() <= v.facts.len() + v.episodes.len(),
{
    let fs = v.facts.map_values(|e: FactEntry| HitId::Fact(e.id));
    let es = v.episodes.map_values(|e: EpisodeEntry| HitId::Episode(e.id));
    let all = fs + es;
    assert(all.no_duplicates()) by {
        assert forall|i: int, j: int| 0 <= i < all.len() && 0 <= j < all.len() && i != j implies all[i] != all[j] by {
            if i < fs.len() && j < fs.len() {
                if i < j {
                    assert(v.facts[i].id != v.facts[j].id);
                } else {
                    assert(v.facts[j].id != v.facts[i].id);
                }
            } else if i >= fs.len() && j >= fs.len() {
                let a = i - fs.len();
                let b = j - fs.len();
                if a < b {
                    assert(v.episodes[a].id != v.episodes[b].id);
                } else {
                    assert(v.episodes[b].id != v.episodes[a].id);
                }
            }
        }
    }
    all.unique_seq_to_set();
    s.unique_seq_to_set();
    all.lemma_cardinality_of_set();
    assert(all.to_set().finite()) by {
        vstd::seq_lib::seq_to_set_is_finite(all);
    }
    assert(s.to_set().subset_of(all.to_set())) by {
        assert forall|x: HitId| s.to_set().contains(x) implies all.to_set().contains(x) by {
            let i = choose|i: int| 0 <= i < s.len() && s[i] == x;
            assert(hit_exists(v, s[i]));
            match x {
                HitId::Fact(f) => {
                    let p = fact_pos(v, f);
                    assert(all[p] == x);
                },
                HitId::Episode(e) => {
                    let p = episode_pos(v, e);
                    assert(all[fs.len() + p] == x);
                },
            }
        }
    }
    vstd::set_lib::lemma_len_subset(s.to_set(), all.to_set());
}


// ── laws of the store ─────────────────────────────────────────────────────

/// Read after write: once an inbox row with a fresh id is added, the inbox
/// holds that id and reading it gives back the row and its project; every
/// other id is present exactly when it was before.
pub proof fn lemma_inbox_insert_then_get(v: StoreView, project: ProjectId, row: InboxRowView)
    requires
        store_wf(v),
        !has_inbox_item(v, row.id),
    ensures
        has_inbox_item(StoreView { inbox: v.inbox.push(InboxEntry { project, row }), ..v }, row.id),
        (StoreView { inbox: v.inbox.push(InboxEntry { project, row }), ..v }).inbox[inbox_pos(
            StoreView { inbox: v.inbox.push(InboxEntry { project, row }), ..v },
            row.id,
        )] == (InboxEntry { project, row }),
        forall|id: InboxItemId|
            id != row.id ==> (has_inbox_item(StoreView { inbox: v.inbox.push(InboxEntry { project, row }), ..v }, id)
                <==> #[trigger] has_inbox_item(v, id)),
{
    let w = StoreView { inbox: v.inbox.push(InboxEntry { project, row }), ..v };
    let n = v.inbox.len() as int;
    assert(w.inbox[n].row.id == row.id);
    assert(has_inbox_item(w, row.id));
    let p = inbox_pos(w, row.id);
    if p != n {
        assert(v.inbox[p].row.id == row.id);
    }
    assert forall|id: InboxItemId| id != row.id implies (has_inbox_item(w, id) <==> #[trigger] has_inbox_item(v, id)) by {
        if has_inbox_item(v, id) {
            let i = choose|i: int| 0 <= i < v.inbox.len() && v.inbox[i].row.id == id;
            assert(w.inbox[i] == v.inbox[i]);
        }
        if has_inbox_item(w, id) {
            let i = choose|i: int| 0 <= i < w.inbox.len() && w.inbox[i].row.id == id;
            assert(i < n);
            assert(v.inbox[i] == w.inbox[i]);
        }
    }
}

/// Once an inbox row is removed, its id is gone; every other id is present
/// exactly when it was before.
pub proof fn lemma_inbox_delete_then_absent(v: StoreView, id: InboxItemId)
    requires
        store_wf(v),
        has_inbox_item(v, id),
    ensures
        !has_inbox_item(StoreView { inbox: v.inbox.remove(inbox_pos(v, id)), ..v }, id),
        forall|other: InboxItemId|
            other != id ==> (has_inbox_item(StoreView { inbox: v.inbox.remove(inbox_pos(v, id)), ..v }, other)
                <==> #[trigger] has_inbox_item(v, other)),
{
    let p = inbox_pos(v, id);
    let w = StoreView { inbox: v.inbox.remove(p), ..v };
    if has_inbox_item(w, id) {
        let i = choose|i: int| 0 <= i < w.inbox.len() && w.inbox[i].row.id == id;
        if i < p {
            assert(w.inbox[i] == v.inbox[i]);
            assert(v.inbox[i].row.id != v.inbox[p].row.id);
        } else {
            assert(w.inbox[i] == v.inbox[i + 1]);
            assert(v.inbox[p].row.id != v.inbox[i + 1].row.id);
        }
    }
    assert forall|other: InboxItemId| other != id implies (has_inbox_item(w, other) <==> #[trigger] has_inbox_item(v, other)) by {
        if has_inbox_item(v, other) {
            let i = choose|i: int| 0 <= i < v.inbox.len() && v.inbox[i].row.id == other;
            if i < p {
                assert(w.inbox[i] == v.inbox[i]);
            } else {
                assert(i != p);
                assert(w.inbox[i - 1] == v.inbox[i]);
            }
        }
        if has_inbox_item(w, other) {
            let i = choose|i: int| 0 <= i < w.inbox.len() && w.inbox[i].row.id == other;
            if i < p {
                assert(w.inbox[i] == v.inbox[i]);
            } else {
                assert(w.inbox[i] == v.inbox[i + 1]);
            }
        }
    }
}

/// How adding an inbox row changes a listing: a row that passes the filter
/// is listed last while the listing had room for it; any other row leaves
/// the listing as it was.
pub proof fn lemma_listing_after_insert(
    v: StoreView,
    e: InboxEntry,
    project: ProjectId,
    kind: Option<MemoryType>,
    min_confidence: Option<u32>,
    limit: usize,
)
    ensures
        inbox_selected(e, project, kind, min_confidence) && inbox_list_spec(v, project, kind, min_confidence, limit).len()
            < limit ==> inbox_list_spec(StoreView { inbox: v.inbox.push(e), ..v }, project, kind, min_confidence, limit)
            == inbox_list_spec(v, project, kind, min_confidence, limit).push(e.row),
        !inbox_selected(e, project, kind, min_confidence) ==> inbox_list_spec(
            StoreView { inbox: v.inbox.push(e), ..v },
            project,
            kind,
            min_confidence,
            limit,
        ) == inbox_list_spec(v, project, kind, min_confidence, limit),
{
    let sel = |x: InboxEntry| inbox_selected(x, project, kind, min_confidence);
    let w = StoreView { inbox: v.inbox.push(e), ..v };
    reveal(Seq::filter);
    assert(w.inbox.drop_last() =~= v.inbox);
    let m0 = v.inbox.filter(sel);
    let m1 = w.inbox.filter(sel);
    if sel(e) {
        assert(m1 =~= m0.push(e));
        if m0.len() < limit {
            assert(m1.take(m0.len() + 1int) =~= m0.push(e));
            assert(m0.take(m0.len() as int) =~= m0);
            assert(m1.take(m1.len() as int).map_values(|x: InboxEntry| x.row) =~= m0.take(m0.len() as int).map_values(
                |x: InboxEntry| x.row,
            ).push(e.row));
        }
    } else {
        assert(m1 =~= m0);
    }
}

/// Read after write for facts: once a fact with a fresh id is confirmed,
/// reading that id gives back the fact.
pub proof fn lemma_fact_insert_then_get(v: StoreView, e: FactEntry)
    requires
        store_wf(v),
        !has_fact(v, e.id),
    ensures
        has_fact(StoreView { facts: v.facts.push(e), ..v }, e.id),
        (StoreView { facts: v.facts.push(e), ..v }).facts[fact_pos(StoreView { facts: v.facts.push(e), ..v }, e.id)]
            == e,
{
    let w = StoreView { facts: v.facts.push(e), ..v };
    let n = v.facts.len() as int;
    assert(w.facts[n].id == e.id);
    assert(has_fact(w, e.id));
    let p = fact_pos(w, e.id);
    if p != n {
        assert(v.facts[p].id == e.id);
    }
}

/// A listing with a confidence floor `m` lists exactly the candidates at or
/// above it: every listed row is of the project's inbox, of the asked layer
/// (when one is asked) and has confidence at least `m`; and while the listing
/// has room, every candidate of the project and layer whose confidence is at
/// least `m` is listed, one exactly at `m` included.
pub proof fn lemma_listing_confidence_floor(
    v: StoreView,
    project: ProjectId,
    kind: Option<MemoryType>,
    m: u32,
    limit: usize,
)
    ensures
        forall|i: int|
            0 <= i < inbox_list_spec(v, project, kind, Some(m), limit).len() ==> {
                let row = #[trigger] inbox_list_spec(v, project, kind, Some(m), limit)[i];
                &&& row.confidence >= m
                &&& (kind matches Some(k) ==> row.kind == k)
            },
        inbox_list_spec(v, project, kind, Some(m), limit).len() < limit ==> forall|i: int|
            0 <= i < v.inbox.len() && (#[trigger] v.inbox[i]).project == project && (kind matches Some(k)
                ==> v.inbox[i].row.kind == k) && v.inbox[i].row.confidence >= m ==> inbox_list_spec(
                v,
                project,
                kind,
                Some(m),
                limit,
            ).contains(v.inbox[i].row),
{
    broadcast use vstd::seq_lib::group_filter_ensures;
    let sel = |e: InboxEntry| inbox_selected(e, project, kind, Some(m));
    let f = v.inbox.filter(sel);
    let n = if limit < f.len() { limit as int } else { f.len() as int };
    let list = inbox_list_spec(v, project, kind, Some(m), limit);
    assert(list == f.take(n).map_values(|e: InboxEntry| e.row));
    assert forall|i: int| 0 <= i < list.len() implies {
        let row = #[trigger] list[i];
        &&& row.confidence >= m
        &&& (kind matches Some(k) ==> row.kind == k)
    } by {
        assert(list[i] == f[i].row);
        assert(sel(f[i]));
    }
    if list.len() < limit {
        assert(n == f.len());
        assert(f.take(n) =~= f);
        assert forall|i: int|
            0 <= i < v.inbox.len() && (#[trigger] v.inbox[i]).project == project && (kind matches Some(k)
                ==> v.inbox[i].row.kind == k) && v.inbox[i].row.confidence >= m implies list.contains(
            v.inbox[i].row,
        ) by {
            assert(sel(v.inbox[i]));
            assert(f.contains(v.inbox[i]));
            let j = choose|j: int| 0 <= j < f.len() && f[j] == v.inbox[i];
            assert(list[j] == v.inbox[i].row);
        }
    }
}

/// The full-text query sent to the index is a disjunction: its parameters
/// are the project's id text and the query's tokens (maximal alphanumeric
/// runs, ASCII-lowercased) joined with ` OR `, so a record holding any one
/// query token matches.
pub proof fn lemma_fts_query_is_disjunction(project: ProjectId, query: Seq<char>)
    ensures
        fts_args(project, query).len() == 2,
        fts_args(project, query)[0] == ulid_text(project.0),
        fts_args(project, query)[1] == crate::text::join_with(crate::text::tokens(query), " OR "@),
{
}

} // verus!
