//! The memory engine: a store and an embedder behind the operations a daemon
//! or an MCP host calls. Every save lands in the inbox first; approval is the
//! only path that lands a row in the confirmed layers, and each hop appends a
//! step to the row's provenance chain.

use vstd::prelude::*;
use crate::base::error::BluesError;
use crate::base::ids::{FactId, InboxItemId, ProjectId};
use crate::base::memory::MemoryType;
use crate::base::provenance::{Provenance, ProvenanceView, SourceView, StepView};
use crate::memory::compiler::{compile, compile_raw, compile_spec};
use crate::memory::consolidate;
use crate::memory::consolidate::decay::FACTOR;
use crate::memory::embed::{valid_embedding, Embedder, EMBED_DIM};
use crate::memory::recall::{recall, recall_spec, route_pool};
use crate::memory::store::{
    attach_step, decayed_view, fts_hits, kind_text, FACT_INSERT_SQL, FACT_FTS_INSERT_SQL, default_provenance, dim_mismatch_text, ensure_dim, has_fact,
    has_inbox_item, inbox_list_spec, inbox_pos, joined, store_wf, FactEntry, InboxEntry, InboxRow,
    InboxRowView, SqliteStore, StoreView, MAX_CONFIRMED,
};
use crate::memory::types::{
    CompiledContext, ConsolidateMode, ContextBlock, ContextRequest, Edit, HitId, InboxFilter,
    InboxItem, InboxItems, MemoryHit, MemoryQuery, MemoryRef, MemoryResults, MemoryWrite,
    CONFIDENCE_ONE,
};
use crate::text::{is_blank, is_blank_text, tokens};
use crate::trusted::ulid_calls::ulid_text;

verus! {

/// Confidence given to a candidate whose writer named none: 0.5, just above
/// the noise floor, so it is visible but never auto-approved.
pub const DEFAULT_INBOX_CONFIDENCE: u32 = 500_000;

/// How many inbox rows a listing returns when the filter names no limit.
pub const DEFAULT_INBOX_LIMIT: usize = 50;

/// The confidence a saved candidate gets: the writer's, clamped to 1.0, or
/// `DEFAULT_INBOX_CONFIDENCE`.
pub open spec fn inbox_confidence(c: Option<u32>) -> u32 {
    match c {
        Some(x) => if x > CONFIDENCE_ONE { CONFIDENCE_ONE } else { x },
        None => DEFAULT_INBOX_CONFIDENCE,
    }
}

/// The provenance a write starts from: its own, or its source (if named) as
/// user input with an empty chain.
pub open spec fn write_provenance(write: MemoryWrite) -> ProvenanceView {
    match write.provenance {
        Some(p) => p@,
        None => ProvenanceView {
            sources: match write.source {
                Some(s) => seq![SourceView::User { input: s@ }],
                None => Seq::empty(),
            },
            chain: Seq::empty(),
        },
    }
}

/// `p` with one more step on its chain.
pub open spec fn with_step(p: ProvenanceView, at: i128, action: Seq<char>, by: Seq<char>) -> ProvenanceView {
    ProvenanceView { sources: p.sources, chain: p.chain.push(StepView { at, action, by }) }
}

/// The inbox entry a save of `write` under `project` adds, its ingestion step
/// stamped `at`.
pub open spec fn saved_entry(project: ProjectId, write: MemoryWrite, id: InboxItemId, at: i128) -> InboxEntry {
    InboxEntry {
        project,
        row: InboxRowView {
            id,
            kind: write.kind,
            content: write.content@,
            confidence: inbox_confidence(write.confidence),
            provenance: with_step(write_provenance(write), at, "ingest"@, "memory"@),
            plan_id: write.plan_id,
            node_id: write.node_id,
        },
    }
}

/// The content an approval keeps: the edit's, else the candidate's.
pub open spec fn approved_content(e: InboxEntry, edit: Option<Edit>) -> Seq<char> {
    match edit {
        Some(ed) => match ed.content {
            Some(c) => c@,
            None => e.row.content,
        },
        None => e.row.content,
    }
}

/// The layer an approval files into: the edit's, else the candidate's.
pub open spec fn approved_kind(e: InboxEntry, edit: Option<Edit>) -> MemoryType {
    match edit {
        Some(ed) => match ed.kind {
            Some(k) => k,
            None => e.row.kind,
        },
        None => e.row.kind,
    }
}

/// The fact an approval of candidate `e` confirms: same project and
/// confidence, the approved content and layer, and the candidate's
/// provenance with an approval step stamped `at`.
pub open spec fn approved_fact(
    e: InboxEntry,
    edit: Option<Edit>,
    id: FactId,
    embedding: Seq<u32>,
    at: i128,
) -> FactEntry {
    FactEntry {
        project: e.project,
        id,
        kind: approved_kind(e, edit),
        content: approved_content(e, edit),
        embedding,
        provenance: with_step(e.row.provenance, at, "approve"@, "user"@),
        confidence: e.row.confidence,
    }
}

/// The store after approving candidate `item` as fact `id`: the candidate
/// leaves the inbox and the fact joins the confirmed facts.
pub open spec fn approved_view(
    v: StoreView,
    item: InboxItemId,
    edit: Option<Edit>,
    id: FactId,
    embedding: Seq<u32>,
    at: i128,
) -> StoreView {
    StoreView {
        inbox: v.inbox.remove(inbox_pos(v, item)),
        facts: v.facts.push(approved_fact(v.inbox[inbox_pos(v, item)], edit, id, embedding, at)),
        episodes: v.episodes,
    }
}

/// `v` with its inbox replaced by `inbox`.
pub open spec fn with_inbox(v: StoreView, inbox: Seq<InboxEntry>) -> StoreView {
    StoreView { inbox, ..v }
}

/// The listing limit a filter asks for.
pub open spec fn list_limit(limit: Option<usize>) -> usize {
    match limit {
        Some(l) => l,
        None => DEFAULT_INBOX_LIMIT,
    }
}

/// The memory engine over a store and an embedder.
pub struct Engine<E: Embedder> {
    store: SqliteStore,
    embedder: E,
}

impl<E: Embedder> View for Engine<E> {
    type V = StoreView;

    closed spec fn view(&self) -> StoreView {
        self.store@
    }
}

impl<E: Embedder> Engine<E> {
    pub open spec fn wf(&self) -> bool {
        store_wf(self@)
    }

    /// The embedder the engine was built with.
    pub closed spec fn embedder_of(&self) -> E {
        self.embedder
    }

    /// The statements applied to the store's full-text index so far.
    pub closed spec fn index_history(&self) -> Seq<(Seq<char>, Seq<Seq<char>>)> {
        self.store.index_history()
    }

    /// What the engine's embedder computes for `text`.
    pub open spec fn embeds(&self, text: Seq<char>) -> Seq<u32> {
        self.embedder_of().spec_embed(text)
    }

    pub fn new(store: SqliteStore, embedder: E) -> (r: Self)
        ensures
            r@ == store@,
            r.embedder_of() == embedder,
    {
        Engine { store, embedder }
    }

    /// The underlying store, for direct reads.
    pub fn store(&self) -> (r: &SqliteStore)
        ensures
            r@ == self@,
    {
        &self.store
    }

    /// Saves `write` under `project` as inbox candidate `id`. Blank content is
    /// refused (`InvalidArgument`); so is an id already in the inbox
    /// (`Internal`). The candidate keeps the writer's provenance (or its
    /// source as user input) with an `ingest` step by `memory` appended.
    pub fn save_as(&mut self, project: ProjectId, write: MemoryWrite, id: InboxItemId) -> (r: Result<
        MemoryRef,
        BluesError,
    >)
        requires
            old(self).wf(),
        ensures
            final(self).wf(),
            final(self).embedder_of() == old(self).embedder_of(),
            final(self).index_history() == old(self).index_history(),
            r is Err ==> final(self)@ == old(self)@,
            is_blank_text(write.content@) ==> r is Err && r->Err_0 is InvalidArgument
                && r->Err_0.detail() == "memory content empty"@,
            !is_blank_text(write.content@) && has_inbox_item(old(self)@, id) ==> r is Err
                && r->Err_0 is Internal,
            !is_blank_text(write.content@) && !has_inbox_item(old(self)@, id) ==> r is Ok
                && r->Ok_0 == MemoryRef::Inbox(id),
            r is Ok ==> exists|at: i128|
                #![auto]
                final(self)@ == with_inbox(old(self)@, old(self)@.inbox.push(saved_entry(project, write, id, at))),
    {
        if is_blank(write.content.as_str()) {
            return Err(BluesError::InvalidArgument(String::from_str("memory content empty")));
        }
        let ghost w = write;
        let MemoryWrite { content, kind, source, confidence, plan_id, node_id, provenance } = write;
        let mut prov = match provenance {
            Some(p) => p,
            None => {
                let src: Option<&str> = match &source {
                    Some(s) => Some(s.as_str()),
                    None => None,
                };
                let p = default_provenance(src);
                assert(p@.chain =~= Seq::<StepView>::empty());
                assert(p@.sources == write_provenance(w).sources);
                p
            },
        };
        assert(prov@ == write_provenance(w));
        attach_step(&mut prov, "ingest", "memory");
        let ghost at = prov@.chain.last().at;
        let conf = match confidence {
            Some(c) => if c > CONFIDENCE_ONE { CONFIDENCE_ONE } else { c },
            None => DEFAULT_INBOX_CONFIDENCE,
        };
        let row = InboxRow { id, kind, content, confidence: conf, provenance: prov, plan_id, node_id };
        assert(InboxEntry { project, row: row@ } == saved_entry(project, w, id, at));
        match self.store.inbox_insert(project, &row) {
            Ok(()) => {},
            Err(e) => {
                return Err(e);
            },
        }
        assert(self@ == with_inbox(old(self)@, old(self)@.inbox.push(saved_entry(project, w, id, at))));
        Ok(MemoryRef::Inbox(id))
    }

    /// Saves `write` under `project` as a new inbox candidate with a fresh id
    /// (see [`Engine::save_as`]). The id is drawn at random; should it collide
    /// with one in the inbox, the save is refused with `Internal`.
    pub fn save(&mut self, project: ProjectId, write: MemoryWrite) -> (r: Result<MemoryRef, BluesError>)
        requires
            old(self).wf(),
        ensures
            final(self).wf(),
            final(self).embedder_of() == old(self).embedder_of(),
            final(self).index_history() == old(self).index_history(),
            r is Err ==> final(self)@ == old(self)@,
            is_blank_text(write.content@) ==> r is Err && r->Err_0 is InvalidArgument
                && r->Err_0.detail() == "memory content empty"@,
            r is Err && !is_blank_text(write.content@) ==> r->Err_0 is Internal,
            r is Err && !is_blank_text(write.content@) ==> old(self)@.inbox.len() > 0,
            !is_blank_text(write.content@) && old(self)@.inbox.len() == 0 ==> r is Ok,
            r matches Ok(m) ==> m matches MemoryRef::Inbox(id) && !has_inbox_item(old(self)@, id)
                && exists|at: i128|
                #![auto]
                final(self)@ == with_inbox(old(self)@, old(self)@.inbox.push(saved_entry(project, write, id, at))),
    {
        let id = InboxItemId::new();
        self.save_as(project, write, id)
    }

    /// Multi-route recall over the confirmed memory of `project` (see
    /// [`recall`]).
    pub fn query(&self, project: ProjectId, q: MemoryQuery) -> (r: Result<MemoryResults, BluesError>)
        requires
            self.wf(),
        ensures
            r is Ok ==> fts_hits(self.index_history(), project, q.query@, route_pool(q.top_k)) is Some,
            r matches Ok(res) ==> res.items@.map_values(|h: MemoryHit| h@) == recall_spec(
                self@,
                project,
                q.top_k,
                q.kind,
                fts_hits(self.index_history(), project, q.query@, route_pool(q.top_k))->Some_0,
                self.embeds(q.query@),
            ),
            fts_hits(self.index_history(), project, q.query@, route_pool(q.top_k)) is None ==> r is Err,
            (is_blank_text(q.query@) || tokens(q.query@).len() == 0) && self.embedder_of().infallible()
                ==> r is Ok,
            r is Err && self.embedder_of().infallible() ==> r->Err_0 is Internal,
    {
        recall(&self.store, &self.embedder, project, q)
    }

    /// Compiles a context for `req` within its token budget (see [`compile`]).
    pub fn compile_context(&self, req: ContextRequest) -> (r: Result<CompiledContext, BluesError>)
        requires
            self.wf(),
        ensures
            req.token_budget == 0 ==> r is Ok && r->Ok_0.blocks@.len() == 0 && r->Ok_0.total_tokens == 0
                && r->Ok_0.omitted == 0,
            r matches Ok(c) ==> c.total_tokens <= req.token_budget,
            r matches Ok(c) ==> req.token_budget > 0 ==> compile_raw(self.index_history(), req) is Some,
            r matches Ok(c) ==> req.token_budget > 0 ==> c.blocks@.map_values(|b: ContextBlock| b@) == compile_spec(
                self@,
                req,
                compile_raw(self.index_history(), req)->Some_0,
                self.embeds(req.task@),
            ).blocks,
            r matches Ok(c) ==> req.token_budget > 0 ==> c.total_tokens == compile_spec(
                self@,
                req,
                compile_raw(self.index_history(), req)->Some_0,
                self.embeds(req.task@),
            ).total,
            r matches Ok(c) ==> req.token_budget > 0 ==> c.omitted == compile_spec(
                self@,
                req,
                compile_raw(self.index_history(), req)->Some_0,
                self.embeds(req.task@),
            ).omitted,
            req.token_budget > 0 && compile_raw(self.index_history(), req) is None ==> r is Err,
            (is_blank_text(req.task@) || tokens(req.task@).len() == 0) && self.embedder_of().infallible()
                ==> r is Ok,
            r is Err && self.embedder_of().infallible() ==> r->Err_0 is Internal,
    {
        compile(&self.store, &self.embedder, req)
    }

    /// The inbox candidates of `project` that pass `filter`, oldest first, at
    /// most `filter.limit` (50 when not given).
    pub fn list_inbox(&self, project: ProjectId, filter: InboxFilter) -> (r: Result<InboxItems, BluesError>)
        requires
            self.wf(),
        ensures
            r is Ok,
            r->Ok_0.items@.map_values(|x: InboxItem| x@) == inbox_list_spec(
                self@,
                project,
                filter.kind,
                filter.min_confidence,
                list_limit(filter.limit),
            ),
    {
        let limit = match filter.limit {
            Some(l) => l,
            None => DEFAULT_INBOX_LIMIT,
        };
        let rows = match self.store.inbox_list(project, filter.kind, filter.min_confidence, limit) {
            Ok(rows) => rows,
            Err(e) => {
                return Err(e);
            },
        };
        let mut items: Vec<InboxItem> = Vec::new();
        let mut i: usize = 0;
        while i < rows.len()
            invariant
                i <= rows@.len(),
                items@.map_values(|x: InboxItem| x@) == rows@.take(i as int).map_values(|x: InboxRow| x@),
            decreases rows@.len() - i,
        {
            let r = &rows[i];
            let it = InboxItem {
                id: r.id,
                kind: r.kind,
                content: r.content.clone(),
                confidence: r.confidence,
                provenance: r.provenance.duplicate(),
                plan_id: r.plan_id,
                node_id: r.node_id,
            };
            let ghost prev = items@;
            items.push(it);
            assert(items@.map_values(|x: InboxItem| x@) =~= prev.map_values(|x: InboxItem| x@).push(it@));
            assert(rows@.take(i + 1).map_values(|x: InboxRow| x@) =~= rows@.take(i as int).map_values(
                |x: InboxRow| x@,
            ).push(r@));
            i = i + 1;
        }
        assert(rows@.take(i as int) =~= rows@);
        Ok(InboxItems { items })
    }

    /// Approves inbox candidate `item` as fact `id`, filed with the embedding
    /// `embedding` of its approved content. Refused, leaving the store as it
    /// was, when the candidate is unknown (`NotFound`), the embedding does not
    /// have `EMBED_DIM` entries (`Internal`), the approved layer is episodic
    /// (`InvalidArgument`: episodes are not promoted from the inbox), or the
    /// store refuses the fact (`Internal`: id taken, embedding invalid, store
    /// full, or the index refusing the row).
    pub fn approve_with(&mut self, item: InboxItemId, edit: Option<Edit>, embedding: &[u32], id: FactId) -> (r:
        Result<FactId, BluesError>)
        requires
            old(self).wf(),
        ensures
            final(self).wf(),
            final(self).embedder_of() == old(self).embedder_of(),
            r is Ok ==> final(self).index_history() == old(self).index_history().push(
                (
                    FACT_INSERT_SQL@,
                    seq![
                        ulid_text(id.0),
                        ulid_text(old(self)@.inbox[inbox_pos(old(self)@, item)].project.0),
                        kind_text(approved_kind(old(self)@.inbox[inbox_pos(old(self)@, item)], edit)),
                        approved_content(old(self)@.inbox[inbox_pos(old(self)@, item)], edit),
                    ],
                ),
            ).push(
                (
                    FACT_FTS_INSERT_SQL@,
                    seq![ulid_text(id.0), approved_content(old(self)@.inbox[inbox_pos(old(self)@, item)], edit)],
                ),
            ),
            r is Err ==> final(self)@ == old(self)@,
            !has_inbox_item(old(self)@, item) ==> r is Err && r->Err_0 is NotFound
                && r->Err_0.detail() == "inbox item "@ + ulid_text(item.0),
            has_inbox_item(old(self)@, item) && embedding@.len() != EMBED_DIM ==> r is Err
                && r->Err_0 is Internal && r->Err_0.detail() == dim_mismatch_text(embedding@.len()),
            has_inbox_item(old(self)@, item) && embedding@.len() == EMBED_DIM && approved_kind(
                old(self)@.inbox[inbox_pos(old(self)@, item)],
                edit,
            ) == MemoryType::Episodic ==> r is Err && r->Err_0 is InvalidArgument
                && r->Err_0.detail() == "episodic approval requires episode promotion (v0.2)"@,
            has_inbox_item(old(self)@, item) && (has_fact(old(self)@, id) || !valid_embedding(embedding@)
                || old(self)@.facts.len() + old(self)@.episodes.len() >= MAX_CONFIRMED) ==> r is Err,
            r is Err && has_inbox_item(old(self)@, item) && embedding@.len() == EMBED_DIM && approved_kind(
                old(self)@.inbox[inbox_pos(old(self)@, item)],
                edit,
            ) != MemoryType::Episodic ==> r->Err_0 is Internal,
            r is Ok ==> r->Ok_0 == id && has_inbox_item(old(self)@, item) && approved_kind(
                old(self)@.inbox[inbox_pos(old(self)@, item)],
                edit,
            ) != MemoryType::Episodic && exists|at: i128|
                #![auto]
                final(self)@ == approved_view(old(self)@, item, edit, id, embedding@, at),
    {
        let full = match self.store.inbox_get(item) {
            Ok(Some(f)) => f,
            Ok(None) => {
                let t = item.to_string();
                return Err(BluesError::NotFound(joined("inbox item ", t.as_str())));
            },
            Err(e) => {
                return Err(e);
            },
        };
        let ghost e = old(self)@.inbox[inbox_pos(old(self)@, item)];
        let project = full.project;
        let row = full.row;
        let content: String = match &edit {
            Some(ed) => match &ed.content {
                Some(c) => c.clone(),
                None => row.content.clone(),
            },
            None => row.content.clone(),
        };
        let kind: MemoryType = match &edit {
            Some(ed) => match ed.kind {
                Some(k) => k,
                None => row.kind,
            },
            None => row.kind,
        };
        assert(content@ == approved_content(e, edit));
        assert(kind == approved_kind(e, edit));
        let mut prov = row.provenance;
        attach_step(&mut prov, "approve", "user");
        let ghost at = prov@.chain.last().at;
        match ensure_dim(embedding) {
            Ok(()) => {},
            Err(err) => {
                return Err(err);
            },
        }
        match kind {
            MemoryType::Episodic => Err(
                BluesError::InvalidArgument(String::from_str("episodic approval requires episode promotion (v0.2)")),
            ),
            MemoryType::Semantic | MemoryType::Procedural => {
                match self.store.fact_insert(project, id, kind, content.as_str(), embedding, &prov, row.confidence) {
                    Ok(()) => {},
                    Err(err) => {
                        return Err(err);
                    },
                }
                let ghost mid = self@;
                assert(mid.inbox == old(self)@.inbox);
                assert(has_inbox_item(mid, item)) by {
                    let p = inbox_pos(old(self)@, item);
                    assert(mid.inbox[p].row.id == item);
                }
                assert(inbox_pos(mid, item) == inbox_pos(old(self)@, item)) by {
                    let p = inbox_pos(old(self)@, item);
                    let q = inbox_pos(mid, item);
                    if p != q {
                        if p < q {
                            assert(mid.inbox[p].row.id != mid.inbox[q].row.id);
                        } else {
                            assert(mid.inbox[q].row.id != mid.inbox[p].row.id);
                        }
                    }
                }
                match self.store.inbox_delete(item) {
                    Ok(()) => {},
                    Err(err) => {
                        return Err(err);
                    },
                }
                assert(self@ == approved_view(old(self)@, item, edit, id, embedding@, at));
                Ok(id)
            },
        }
    }

    /// Approves inbox candidate `item` (with optional corrections) into the
    /// confirmed facts under a fresh id: its approved content is embedded, an
    /// `approve` step by `user` is appended to its provenance, and it leaves
    /// the inbox. Refused, leaving the store as it was, when the candidate is
    /// unknown (`NotFound`), the embedder fails, the approved layer is
    /// episodic (`InvalidArgument`), or the store refuses the fact.
    pub fn approve_inbox(&mut self, item: InboxItemId, edit: Option<Edit>) -> (r: Result<FactId, BluesError>)
        requires
            old(self).wf(),
        ensures
            final(self).wf(),
            final(self).embedder_of() == old(self).embedder_of(),
            r matches Ok(fid) ==> final(self).index_history() == old(self).index_history().push(
                (
                    FACT_INSERT_SQL@,
                    seq![
                        ulid_text(fid.0),
                        ulid_text(old(self)@.inbox[inbox_pos(old(self)@, item)].project.0),
                        kind_text(approved_kind(old(self)@.inbox[inbox_pos(old(self)@, item)], edit)),
                        approved_content(old(self)@.inbox[inbox_pos(old(self)@, item)], edit),
                    ],
                ),
            ).push(
                (
                    FACT_FTS_INSERT_SQL@,
                    seq![ulid_text(fid.0), approved_content(old(self)@.inbox[inbox_pos(old(self)@, item)], edit)],
                ),
            ),
            r is Err ==> final(self)@ == old(self)@,
            !has_inbox_item(old(self)@, item) ==> r is Err && r->Err_0 is NotFound
                && r->Err_0.detail() == "inbox item "@ + ulid_text(item.0),
            has_inbox_item(old(self)@, item) && approved_kind(old(self)@.inbox[inbox_pos(old(self)@, item)], edit)
                == MemoryType::Episodic ==> r is Err,
            has_inbox_item(old(self)@, item) && approved_kind(old(self)@.inbox[inbox_pos(old(self)@, item)], edit)
                == MemoryType::Episodic && old(self).embedder_of().infallible() ==> r is Err
                && r->Err_0 is InvalidArgument
                && r->Err_0.detail() == "episodic approval requires episode promotion (v0.2)"@,
            r is Err && has_inbox_item(old(self)@, item) && approved_kind(
                old(self)@.inbox[inbox_pos(old(self)@, item)],
                edit,
            ) != MemoryType::Episodic && old(self).embedder_of().infallible() ==> r->Err_0 is Internal,
            r matches Ok(fid) ==> has_inbox_item(old(self)@, item) && !has_fact(old(self)@, fid)
                && approved_kind(old(self)@.inbox[inbox_pos(old(self)@, item)], edit) != MemoryType::Episodic
                && exists|at: i128|
                #![auto]
                final(self)@ == approved_view(
                    old(self)@,
                    item,
                    edit,
                    fid,
                    old(self).embeds(approved_content(old(self)@.inbox[inbox_pos(old(self)@, item)], edit)),
                    at,
                ),
    {
        let full = match self.store.inbox_get(item) {
            Ok(Some(f)) => f,
            Ok(None) => {
                let t = item.to_string();
                return Err(BluesError::NotFound(joined("inbox item ", t.as_str())));
            },
            Err(e) => {
                return Err(e);
            },
        };
        let ghost e = old(self)@.inbox[inbox_pos(old(self)@, item)];
        let content: String = match &edit {
            Some(ed) => match &ed.content {
                Some(c) => c.clone(),
                None => full.row.content.clone(),
            },
            None => full.row.content.clone(),
        };
        assert(content@ == approved_content(e, edit));
        let emb = match self.embedder.embed(content.as_str()) {
            Ok(v) => v,
            Err(err) => {
                return Err(err);
            },
        };
        let id = FactId::new();
        let r = self.approve_with(item, edit, emb.as_slice(), id);
        proof {
            if r is Ok {
                let at = choose|at: i128|
                    #![auto]
                    self@ == approved_view(old(self)@, item, edit, id, emb@, at);
                assert(emb@ == old(self).embeds(approved_content(e, edit)));
                assert(self@ == approved_view(old(self)@, item, edit, id, old(self).embeds(approved_content(e, edit)), at));
            }
        }
        r
    }

    /// Drops inbox candidate `item`; `NotFound` when there is none.
    pub fn reject_inbox(&mut self, item: InboxItemId) -> (r: Result<(), BluesError>)
        requires
            old(self).wf(),
        ensures
            final(self).wf(),
            final(self).embedder_of() == old(self).embedder_of(),
            final(self).index_history() == old(self).index_history(),
            !has_inbox_item(old(self)@, item) ==> final(self)@ == old(self)@ && r is Err
                && r->Err_0 is NotFound && r->Err_0.detail() == "inbox item "@ + ulid_text(item.0),
            has_inbox_item(old(self)@, item) ==> r is Ok && final(self)@ == with_inbox(
                old(self)@,
                old(self)@.inbox.remove(inbox_pos(old(self)@, item)),
            ),
    {
        let r = self.store.inbox_delete(item);
        assert(r is Err ==> r->Err_0 is NotFound);
        r
    }

    /// The provenance of fact `fact`; `NotFound` when there is none.
    pub fn blame(&self, fact: FactId) -> (r: Result<Provenance, BluesError>)
        requires
            self.wf(),
        ensures
            r is Ok <==> has_fact(self@, fact),
            r matches Ok(p) ==> p@ == self@.facts[crate::memory::store::fact_pos(self@, fact)].provenance,
            r is Err ==> r->Err_0 is NotFound && r->Err_0.detail() == "fact "@ + ulid_text(fact.0),
    {
        self.store.fact_provenance(fact)
    }

    /// Runs the consolidation passes `mode` asks for over `project` (see
    /// [`consolidate::run`]).
    pub fn consolidate(&mut self, project: ProjectId, mode: ConsolidateMode) -> (r: Result<(), BluesError>)
        requires
            old(self).wf(),
        ensures
            final(self).wf(),
            final(self).embedder_of() == old(self).embedder_of(),
            final(self).index_history() == old(self).index_history(),
            r is Ok,
            (mode == ConsolidateMode::Decay || mode == ConsolidateMode::All) ==> final(self)@ == decayed_view(
                old(self)@,
                project,
                FACTOR,
            ),
            (mode == ConsolidateMode::Merge || mode == ConsolidateMode::Procedure) ==> final(self)@ == old(
                self,
            )@,
    {
        consolidate::run(&mut self.store, project, mode)
    }
}

// ── laws of the engine ────────────────────────────────────────────────────

/// A saved candidate is listed: with no filter but its project, it shows
/// last in the listing when the listing had room; listings of other projects
/// do not change.
pub proof fn lemma_saved_candidate_listed(
    v: StoreView,
    project: ProjectId,
    write: MemoryWrite,
    id: InboxItemId,
    at: i128,
    other: ProjectId,
    limit: usize,
)
    ensures
        inbox_list_spec(v, project, None, None, limit).len() < limit ==> inbox_list_spec(
            with_inbox(v, v.inbox.push(saved_entry(project, write, id, at))),
            project,
            None,
            None,
            limit,
        ) == inbox_list_spec(v, project, None, None, limit).push(saved_entry(project, write, id, at).row),
        other != project ==> inbox_list_spec(
            with_inbox(v, v.inbox.push(saved_entry(project, write, id, at))),
            other,
            None,
            None,
            limit,
        ) == inbox_list_spec(v, other, None, None, limit),
{
    let e = saved_entry(project, write, id, at);
    crate::memory::store::lemma_listing_after_insert(v, e, project, None, None, limit);
    crate::memory::store::lemma_listing_after_insert(v, e, other, None, None, limit);
    assert(with_inbox(v, v.inbox.push(e)) == (StoreView { inbox: v.inbox.push(e), ..v }));
}

/// Approval moves a candidate: it leaves the inbox, the fact it becomes is
/// read back under its id, and that fact's provenance chain is the
/// candidate's chain with one `approve` step by `user` appended.
pub proof fn lemma_approval_moves(
    v: StoreView,
    item: InboxItemId,
    edit: Option<Edit>,
    fid: FactId,
    embedding: Seq<u32>,
    at: i128,
)
    requires
        store_wf(v),
        has_inbox_item(v, item),
        !has_fact(v, fid),
    ensures
        !has_inbox_item(approved_view(v, item, edit, fid, embedding, at), item),
        has_fact(approved_view(v, item, edit, fid, embedding, at), fid),
        approved_view(v, item, edit, fid, embedding, at).facts[crate::memory::store::fact_pos(
            approved_view(v, item, edit, fid, embedding, at),
            fid,
        )] == approved_fact(v.inbox[inbox_pos(v, item)], edit, fid, embedding, at),
        approved_fact(v.inbox[inbox_pos(v, item)], edit, fid, embedding, at).provenance.chain.drop_last()
            == v.inbox[inbox_pos(v, item)].row.provenance.chain,
        approved_fact(v.inbox[inbox_pos(v, item)], edit, fid, embedding, at).provenance.chain.last() == (StepView {
            at,
            action: "approve"@,
            by: "user"@,
        }),
{
    let w = approved_view(v, item, edit, fid, embedding, at);
    crate::memory::store::lemma_inbox_delete_then_absent(v, item);
    let n = v.facts.len() as int;
    assert(w.facts[n].id == fid);
    assert(has_fact(w, fid));
    let p = crate::memory::store::fact_pos(w, fid);
    if p != n {
        assert(v.facts[p].id == fid);
    }
    let e = approved_fact(v.inbox[inbox_pos(v, item)], edit, fid, embedding, at);
    assert(e.provenance.chain.drop_last() =~= v.inbox[inbox_pos(v, item)].row.provenance.chain);
}

/// The audit trail of a saved-then-approved memory: the writer's chain, then
/// the `ingest` step by `memory`, then the `approve` step by `user`, whatever
/// the approval edited.
pub proof fn lemma_saved_then_approved_chain(
    project: ProjectId,
    write: MemoryWrite,
    item: InboxItemId,
    saved_at: i128,
    edit: Option<Edit>,
    fid: FactId,
    embedding: Seq<u32>,
    approved_at: i128,
)
    ensures
        approved_fact(saved_entry(project, write, item, saved_at), edit, fid, embedding, approved_at).provenance.chain
            == write_provenance(write).chain.push(StepView { at: saved_at, action: "ingest"@, by: "memory"@ }).push(
            StepView { at: approved_at, action: "approve"@, by: "user"@ },
        ),
        approved_fact(saved_entry(project, write, item, saved_at), edit, fid, embedding, approved_at).provenance.sources
            == write_provenance(write).sources,
{
}

/// A rejected candidate is gone, so rejecting it again is refused with
/// `NotFound`; every other candidate stays as it was.
pub proof fn lemma_rejected_gone(v: StoreView, item: InboxItemId)
    requires
        store_wf(v),
        has_inbox_item(v, item),
    ensures
        !has_inbox_item(with_inbox(v, v.inbox.remove(inbox_pos(v, item))), item),
        forall|other: InboxItemId|
            other != item ==> (has_inbox_item(with_inbox(v, v.inbox.remove(inbox_pos(v, item))), other)
                <==> #[trigger] has_inbox_item(v, other)),
{
    crate::memory::store::lemma_inbox_delete_then_absent(v, item);
}

/// An approval keeps what its edit does not name: with no edit, or an edit
/// that names no layer, the fact stays in the candidate's layer (an episodic
/// candidate stays episodic and is refused); with no edit, or an edit that
/// names no content, the fact keeps the candidate's content; a named field
/// replaces the candidate's. Project and confidence always come from the
/// candidate, the embedding from the approval.
pub proof fn lemma_edit_keeps_unnamed_fields(
    e: InboxEntry,
    edit: Option<Edit>,
    fid: FactId,
    embedding: Seq<u32>,
    at: i128,
)
    ensures
        (edit is None || edit->Some_0.kind is None) ==> approved_fact(e, edit, fid, embedding, at).kind == e.row.kind,
        (edit is None || edit->Some_0.content is None) ==> approved_fact(e, edit, fid, embedding, at).content
            == e.row.content,
        edit is Some && edit->Some_0.kind is Some ==> approved_fact(e, edit, fid, embedding, at).kind
            == edit->Some_0.kind->Some_0,
        edit is Some && edit->Some_0.content is Some ==> approved_fact(e, edit, fid, embedding, at).content
            == edit->Some_0.content->Some_0@,
        approved_fact(e, edit, fid, embedding, at).project == e.project,
        approved_fact(e, edit, fid, embedding, at).confidence == e.row.confidence,
        approved_fact(e, edit, fid, embedding, at).embedding == embedding,
        approved_fact(e, edit, fid, embedding, at).id == fid,
        (edit is None || edit->Some_0.kind is None) && e.row.kind == MemoryType::Episodic ==> approved_kind(e, edit)
            == MemoryType::Episodic,
{
}

} // verus!
