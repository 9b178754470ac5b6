use blues::base::error::BluesError;
use blues::base::ids::{FactId, InboxItemId, ProjectId};
use blues::base::memory::MemoryType;
use blues::memory::embed::HashEmbedder;
use blues::memory::engine::Engine;
use blues::memory::store::SqliteStore;
use blues::memory::types::{
    ConsolidateMode, ContextRequest, Edit, HitId, InboxFilter, MemoryQuery, MemoryRef, MemoryWrite, Scope,
};

fn engine() -> Engine<HashEmbedder> {
    Engine::new(SqliteStore::open_in_memory().unwrap(), HashEmbedder)
}

fn write(content: &str, kind: MemoryType, confidence: Option<u32>) -> MemoryWrite {
    MemoryWrite {
        content: content.into(),
        kind,
        source: None,
        confidence,
        plan_id: None,
        node_id: None,
        provenance: None,
    }
}

fn save_and_approve(e: &mut Engine<HashEmbedder>, p: ProjectId, content: &str, kind: MemoryType) -> FactId {
    let MemoryRef::Inbox(item) = e.save(p, write(content, kind, Some(900_000))).unwrap() else { panic!() };
    e.approve_inbox(item, None).unwrap()
}

fn query(text: &str, kind: Option<MemoryType>) -> MemoryQuery {
    MemoryQuery { query: text.into(), top_k: 5, scope: Scope::Project, kind }
}

fn context(p: ProjectId, task: &str, budget: usize) -> ContextRequest {
    ContextRequest { project: p, task: task.into(), token_budget: budget, model_id: None }
}

#[test]
fn save_funnels_into_inbox() {
    let mut e = engine();
    let p = ProjectId::new();
    let r = e
        .save(
            p,
            MemoryWrite {
                content: "auth.ts owns logout flow".into(),
                kind: MemoryType::Semantic,
                source: Some("agent:smart".into()),
                confidence: Some(700_000),
                plan_id: None,
                node_id: None,
                provenance: None,
            },
        )
        .unwrap();
    assert!(matches!(r, MemoryRef::Inbox(_)));

    let listed = e.list_inbox(p, InboxFilter::default()).unwrap();
    assert_eq!(listed.items.len(), 1);
    let item = &listed.items[0];
    assert_eq!(item.kind, MemoryType::Semantic);
    assert_eq!(item.confidence, 700_000);
    assert!(item.provenance.chain.iter().any(|s| s.action == "ingest" && s.by == "memory"));
}

#[test]
fn save_rejects_empty_content() {
    let mut e = engine();
    let p = ProjectId::new();
    let err = e.save(p, write("   ", MemoryType::Semantic, None)).unwrap_err();
    assert!(matches!(err, BluesError::InvalidArgument(_)));
}

#[test]
fn approve_promotes_inbox_into_fact() {
    let mut e = engine();
    let p = ProjectId::new();
    let r = e.save(p, write("logout flow lives in auth.ts", MemoryType::Semantic, Some(900_000))).unwrap();
    let MemoryRef::Inbox(item_id) = r else { panic!("expected inbox ref") };

    let fact_id = e.approve_inbox(item_id, None).unwrap();
    assert!(e.list_inbox(p, InboxFilter::default()).unwrap().items.is_empty());

    let prov = e.blame(fact_id).unwrap();
    let actions: Vec<&str> = prov.chain.iter().map(|s| s.action.as_str()).collect();
    assert!(actions.contains(&"ingest"));
    assert!(actions.contains(&"approve"));
}

#[test]
fn approve_with_edit_overrides_content_and_kind() {
    let mut e = engine();
    let p = ProjectId::new();
    let MemoryRef::Inbox(item) = e.save(p, write("draft", MemoryType::Semantic, None)).unwrap() else { panic!() };
    let fact = e
        .approve_inbox(item, Some(Edit { content: Some("polished".into()), kind: Some(MemoryType::Procedural) }))
        .unwrap();
    let prov = e.blame(fact).unwrap();
    let row = e.store().fact_get(fact).unwrap();
    assert_eq!(row.kind, MemoryType::Procedural);
    assert_eq!(row.content, "polished");
    assert!(prov.chain.iter().any(|s| s.action == "approve"));
}

#[test]
fn reject_drops_inbox_item() {
    let mut e = engine();
    let p = ProjectId::new();
    let MemoryRef::Inbox(item) = e.save(p, write("x", MemoryType::Semantic, None)).unwrap() else { panic!() };
    e.reject_inbox(item).unwrap();
    let err = e.reject_inbox(item).unwrap_err();
    assert!(matches!(err, BluesError::NotFound(_)));
}

#[test]
fn approve_unknown_inbox_is_not_found() {
    let mut e = engine();
    let err = e.approve_inbox(InboxItemId::new(), None).unwrap_err();
    assert!(matches!(err, BluesError::NotFound(_)));
}

#[test]
fn query_finds_fts_match() {
    let mut e = engine();
    let p = ProjectId::new();
    let target = save_and_approve(&mut e, p, "logout flow lives in auth.ts", MemoryType::Semantic);
    let _other = save_and_approve(&mut e, p, "billing logic lives in pay.ts", MemoryType::Semantic);

    let r = e.query(p, query("logout", None)).unwrap();
    assert!(!r.items.is_empty());
    match r.items[0].id {
        HitId::Fact(id) => assert_eq!(id, target),
        _ => panic!("expected fact hit"),
    }
}

#[test]
fn query_kind_filter_excludes_other_kinds() {
    let mut e = engine();
    let p = ProjectId::new();
    let _proc = save_and_approve(&mut e, p, "always run cargo fmt before commit", MemoryType::Procedural);
    let sem = save_and_approve(&mut e, p, "cargo workspace lives at /blues", MemoryType::Semantic);

    let r = e.query(p, query("cargo", Some(MemoryType::Semantic))).unwrap();
    assert!(!r.items.is_empty());
    for hit in &r.items {
        assert_eq!(hit.kind, MemoryType::Semantic);
    }
    match r.items[0].id {
        HitId::Fact(id) => assert_eq!(id, sem),
        _ => panic!(),
    }
}

#[test]
fn query_other_project_returns_empty() {
    let mut e = engine();
    let p1 = ProjectId::new();
    let p2 = ProjectId::new();
    let _ = save_and_approve(&mut e, p1, "logout flow lives in auth.ts", MemoryType::Semantic);
    let r = e.query(p2, query("logout", None)).unwrap();
    assert!(r.items.is_empty());
}

#[test]
fn compile_context_zero_budget_is_empty() {
    let mut e = engine();
    let p = ProjectId::new();
    let _ = save_and_approve(&mut e, p, "anything", MemoryType::Semantic);
    let cc = e.compile_context(context(p, "anything", 0)).unwrap();
    assert!(cc.blocks.is_empty());
    assert_eq!(cc.total_tokens, 0);
}

#[test]
fn compile_context_admits_within_budget() {
    let mut e = engine();
    let p = ProjectId::new();
    let _ = save_and_approve(&mut e, p, "logout flow lives in auth.ts", MemoryType::Semantic);
    let _ = save_and_approve(&mut e, p, "logout cleanup hits revoke endpoint", MemoryType::Semantic);
    let cc = e.compile_context(context(p, "logout", 4096)).unwrap();
    assert_eq!(cc.blocks.len(), 2);
    assert!(cc.total_tokens > 0);
    assert!(cc.total_tokens <= 4096);
    for b in &cc.blocks {
        assert!(b.provenance.chain.iter().any(|s| s.action == "ingest"));
    }
}

#[test]
fn compile_context_respects_tight_budget() {
    let mut e = engine();
    let p = ProjectId::new();
    let _ = save_and_approve(&mut e, p, "logout one", MemoryType::Semantic);
    let _ = save_and_approve(&mut e, p, "logout two", MemoryType::Semantic);
    let _ = save_and_approve(&mut e, p, "logout three", MemoryType::Semantic);
    let cc = e.compile_context(context(p, "logout", 3)).unwrap();
    assert!(cc.total_tokens <= 3);
    assert!(cc.omitted >= 1);
}

#[test]
fn compile_context_dedups_identical_content() {
    let mut e = engine();
    let p = ProjectId::new();
    let _ = save_and_approve(&mut e, p, "twin block", MemoryType::Semantic);
    let _ = save_and_approve(&mut e, p, "twin block", MemoryType::Semantic);
    let cc = e.compile_context(context(p, "twin", 4096)).unwrap();
    assert_eq!(cc.blocks.len(), 1);
    assert_eq!(cc.omitted, 1);
}

#[test]
fn consolidate_decay_lowers_fact_confidence() {
    let mut e = engine();
    let p = ProjectId::new();
    let fact = save_and_approve(&mut e, p, "decay me", MemoryType::Semantic);
    let before = e.store().fact_get(fact).unwrap().confidence;
    e.consolidate(p, ConsolidateMode::Decay).unwrap();
    let after = e.store().fact_get(fact).unwrap().confidence;
    assert!(after < before, "expected decay; before={before} after={after}");
}

#[test]
fn consolidate_merge_and_procedure_are_noops_in_v01() {
    let mut e = engine();
    let p = ProjectId::new();
    let fact = save_and_approve(&mut e, p, "untouched", MemoryType::Semantic);
    let before = e.store().fact_get(fact).unwrap().confidence;
    e.consolidate(p, ConsolidateMode::Merge).unwrap();
    e.consolidate(p, ConsolidateMode::Procedure).unwrap();
    let after = e.store().fact_get(fact).unwrap().confidence;
    assert_eq!(before, after);
}

#[test]
fn save_clamps_confidence_and_defaults_it() {
    let mut e = engine();
    let p = ProjectId::new();
    e.save(p, write("too sure", MemoryType::Semantic, Some(7_000_000))).unwrap();
    e.save(p, write("no opinion", MemoryType::Semantic, None)).unwrap();
    let items = e.list_inbox(p, InboxFilter::default()).unwrap().items;
    assert_eq!(items[0].confidence, 1_000_000);
    assert_eq!(items[1].confidence, 500_000);
}

#[test]
fn save_as_refuses_an_id_already_in_the_inbox() {
    let mut e = engine();
    let p = ProjectId::new();
    let id = InboxItemId(99);
    assert_eq!(e.save_as(p, write("first", MemoryType::Semantic, None), id).unwrap(), MemoryRef::Inbox(id));
    let err = e.save_as(p, write("second", MemoryType::Semantic, None), id).unwrap_err();
    assert!(matches!(err, BluesError::Internal(_)));
    assert_eq!(e.list_inbox(p, InboxFilter::default()).unwrap().items.len(), 1);
}

#[test]
fn save_keeps_the_writers_source_and_chain() {
    let mut e = engine();
    let p = ProjectId::new();
    let mut w = write("from chat", MemoryType::Episodic, None);
    w.source = Some("agent:smart".into());
    e.save(p, w).unwrap();
    let item = &e.list_inbox(p, InboxFilter::default()).unwrap().items[0];
    assert_eq!(item.provenance.sources.len(), 1);
    assert!(matches!(item.provenance.sources[0], blues::base::provenance::Source::User { ref input } if input == "agent:smart"));
    assert_eq!(item.provenance.chain.len(), 1);
}

#[test]
fn approving_an_episode_is_refused_and_keeps_the_candidate() {
    let mut e = engine();
    let p = ProjectId::new();
    let MemoryRef::Inbox(item) = e.save(p, write("ran the deploy", MemoryType::Episodic, None)).unwrap() else { panic!() };
    let err = e.approve_inbox(item, None).unwrap_err();
    assert!(matches!(err, BluesError::InvalidArgument(ref m) if m == "episodic approval requires episode promotion (v0.2)"));
    assert_eq!(e.list_inbox(p, InboxFilter::default()).unwrap().items.len(), 1);
}

#[test]
fn approve_with_checks_the_embedding_and_uses_the_given_id() {
    let mut e = engine();
    let p = ProjectId::new();
    let MemoryRef::Inbox(item) = e.save(p, write("note", MemoryType::Semantic, Some(400_000))).unwrap() else { panic!() };
    let err = e.approve_with(item, None, &[1, 2, 3], FactId(5)).unwrap_err();
    assert!(matches!(err, BluesError::Internal(ref m) if m == "embedding dim mismatch: got 3, want 128"));
    let emb = vec![0u32; 128];
    assert_eq!(e.approve_with(item, None, &emb, FactId(5)).unwrap(), FactId(5));
    let row = e.store().fact_get(FactId(5)).unwrap();
    assert_eq!(row.content, "note");
    assert_eq!(row.confidence, 400_000);
    let missing = e.approve_with(item, None, &emb, FactId(6)).unwrap_err();
    assert!(matches!(missing, BluesError::NotFound(_)));
}

#[test]
fn query_ranks_hits_by_fused_score() {
    let mut e = engine();
    let p = ProjectId::new();
    let _ = save_and_approve(&mut e, p, "logout flow lives in auth.ts", MemoryType::Semantic);
    let _ = save_and_approve(&mut e, p, "logout handler revokes the session token", MemoryType::Semantic);
    let _ = save_and_approve(&mut e, p, "unrelated billing text", MemoryType::Semantic);
    let r = e.query(p, query("logout", None)).unwrap();
    let score = |i: usize| {
        let s = r.items[i].score;
        let part = |rank: Option<usize>| rank.map_or(0.0, |x| 1.0 / (60.0 + x as f64));
        part(s.fts_rank) + part(s.vec_rank)
    };
    for i in 1..r.items.len() {
        assert!(score(i - 1) >= score(i));
    }
    assert!(r.items.len() <= 5);
}

#[test]
fn query_returns_each_hit_once_within_the_limit() {
    let mut e = engine();
    let p = ProjectId::new();
    for text in ["logout one", "logout two", "logout three", "billing", "logout logout"] {
        let _ = save_and_approve(&mut e, p, text, MemoryType::Semantic);
    }
    let r = e.query(p, MemoryQuery { query: "logout".into(), top_k: 3, scope: Scope::Global, kind: None }).unwrap();
    assert_eq!(r.items.len(), 3);
    for i in 0..r.items.len() {
        for j in i + 1..r.items.len() {
            assert_ne!(r.items[i].id, r.items[j].id);
        }
    }
    let one = e.query(p, MemoryQuery { query: "logout".into(), top_k: 0, scope: Scope::Project, kind: None }).unwrap();
    assert_eq!(one.items.len(), 1);
}

#[test]
fn blank_query_still_ranks_by_the_vector_route() {
    let mut e = engine();
    let p = ProjectId::new();
    let a = save_and_approve(&mut e, p, "alpha", MemoryType::Semantic);
    let b = save_and_approve(&mut e, p, "beta", MemoryType::Procedural);
    let r = e.query(p, query("   ", None)).unwrap();
    let ids: Vec<HitId> = r.items.iter().map(|h| h.id).collect();
    assert_eq!(ids, vec![HitId::Fact(a), HitId::Fact(b)]);
    assert!(r.items.iter().all(|h| h.score.fts_rank.is_none() && h.score.vec_rank.is_some()));
}

#[test]
fn approved_fact_carries_ingest_then_approve() {
    let mut e = engine();
    let p = ProjectId::new();
    let mut w = write("audited", MemoryType::Semantic, None);
    w.source = Some("user:cli".into());
    let MemoryRef::Inbox(item) = e.save(p, w).unwrap() else { panic!() };
    let fact = e.approve_inbox(item, Some(Edit { content: Some("audited twice".into()), kind: None })).unwrap();
    let prov = e.blame(fact).unwrap();
    let steps: Vec<(&str, &str)> = prov.chain.iter().map(|s| (s.action.as_str(), s.by.as_str())).collect();
    assert_eq!(steps, vec![("ingest", "memory"), ("approve", "user")]);
    assert!(prov.chain[0].at <= prov.chain[1].at);
    assert_eq!(prov.sources.len(), 1);
    assert_eq!(e.store().fact_get(fact).unwrap().content, "audited twice");
}
