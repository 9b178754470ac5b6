use blues::base::error::BluesError;
use blues::base::ids::{FactId, InboxItemId, ProjectId};
use blues::base::memory::MemoryType;
use blues::memory::embed::HashEmbedder;
use blues::memory::engine::Engine;
use blues::memory::store::SqliteStore;
use blues::memory::types::{
    ConsolidateMode, ContextRequest, Edit, HitId, InboxFilter, MemoryQuery, MemoryRef, MemoryWrite, Scope,
};

fn engine() -> Engine<HashEmbedder> {
    Engine::new(SqliteStore::open_in_memory().unwrap(), HashEmbedder)
}

fn semantic(content: &str) -> MemoryWrite {
    MemoryWrite {
        content: content.into(),
        kind: MemoryType::Semantic,
        source: Some("agent:smart".into()),
        confidence: Some(700_000),
        plan_id: None,
        node_id: None,
        provenance: None,
    }
}

fn query(p: &str, top_k: usize, kind: Option<MemoryType>) -> MemoryQuery {
    MemoryQuery { query: p.into(), top_k, scope: Scope::Project, kind }
}

#[test]
fn capture_triage_recall_compile_blame_roundtrip() {
    let mut e = engine();
    let p = ProjectId::new();

    let MemoryRef::Inbox(item) = e.save(p, semantic("logout flow lives in auth.ts")).unwrap() else {
        panic!("expected inbox ref");
    };

    let inbox = e.list_inbox(p, InboxFilter::default()).unwrap();
    assert_eq!(inbox.items.len(), 1);
    assert_eq!(inbox.items[0].id, item);

    let fact = e.approve_inbox(item, None).unwrap();
    assert!(e.list_inbox(p, InboxFilter::default()).unwrap().items.is_empty());

    let recall = e.query(p, query("logout", 5, None)).unwrap();
    let HitId::Fact(found) = recall.items[0].id else {
        panic!("expected fact hit");
    };
    assert_eq!(found, fact);

    let cc = e
        .compile_context(ContextRequest { project: p, task: "logout".into(), token_budget: 4096, model_id: None })
        .unwrap();
    assert!(!cc.blocks.is_empty());
    assert!(cc.total_tokens > 0 && cc.total_tokens <= 4096);

    let prov = e.blame(fact).unwrap();
    let actions: Vec<&str> = prov.chain.iter().map(|s| s.action.as_str()).collect();
    assert!(actions.contains(&"ingest"));
    assert!(actions.contains(&"approve"));
}

#[test]
fn approve_with_edit_preserves_audit_chain() {
    let mut e = engine();
    let p = ProjectId::new();
    let MemoryRef::Inbox(item) = e.save(p, semantic("draft note")).unwrap() else { panic!() };
    let fact = e
        .approve_inbox(item, Some(Edit { content: Some("polished note".into()), kind: Some(MemoryType::Procedural) }))
        .unwrap();

    let prov = e.blame(fact).unwrap();
    let actions: Vec<&str> = prov.chain.iter().map(|s| s.action.as_str()).collect();
    assert!(actions.contains(&"ingest"));
    assert!(actions.contains(&"approve"));

    let r = e.query(p, query("polished", 5, Some(MemoryType::Procedural))).unwrap();
    let HitId::Fact(id) = r.items[0].id else { panic!() };
    assert_eq!(id, fact);
}

#[test]
fn rejected_candidate_never_reaches_recall() {
    let mut e = engine();
    let p = ProjectId::new();
    let MemoryRef::Inbox(item) = e.save(p, semantic("speculative claim about billing")).unwrap() else { panic!() };
    e.reject_inbox(item).unwrap();

    let r = e.query(p, query("billing", 5, None)).unwrap();
    assert!(r.items.is_empty());
}

#[test]
fn projects_are_isolated_at_recall_and_compile() {
    let mut e = engine();
    let pa = ProjectId::new();
    let pb = ProjectId::new();

    let MemoryRef::Inbox(item) = e.save(pa, semantic("only project A knows this")).unwrap() else { panic!() };
    e.approve_inbox(item, None).unwrap();

    let r = e.query(pb, query("project", 5, None)).unwrap();
    assert!(r.items.is_empty(), "leak across projects via query");

    let cc = e
        .compile_context(ContextRequest { project: pb, task: "project".into(), token_budget: 4096, model_id: None })
        .unwrap();
    assert!(cc.blocks.is_empty(), "leak across projects via compile");
}

#[test]
fn consolidate_all_decays_every_kind() {
    let mut e = engine();
    let p = ProjectId::new();

    fn approve(e: &mut Engine<HashEmbedder>, p: ProjectId, c: &str, k: MemoryType) -> FactId {
        let mut w = semantic(c);
        w.kind = k;
        w.confidence = Some(900_000);
        let MemoryRef::Inbox(item) = e.save(p, w).unwrap() else { panic!() };
        e.approve_inbox(item, None).unwrap()
    }

    let sem = approve(&mut e, p, "semantic A", MemoryType::Semantic);
    let proc_ = approve(&mut e, p, "procedural B", MemoryType::Procedural);

    e.consolidate(p, ConsolidateMode::All).unwrap();

    let r = e.query(p, query("semantic procedural", 10, None)).unwrap();
    assert!(r.items.iter().any(|h| matches!(h.id, HitId::Fact(id) if id == sem)));
    assert!(r.items.iter().any(|h| matches!(h.id, HitId::Fact(id) if id == proc_)));
    assert_eq!(e.store().fact_get(sem).unwrap().confidence, 855_000);
    assert_eq!(e.store().fact_get(proc_).unwrap().confidence, 855_000);
}

#[test]
fn save_rejects_empty_or_whitespace() {
    let mut e = engine();
    let p = ProjectId::new();
    for bad in ["", "   ", "\n\t"] {
        let mut w = semantic("placeholder");
        w.content = bad.into();
        let err = e.save(p, w).unwrap_err();
        assert!(matches!(err, BluesError::InvalidArgument(_)), "got {err:?}");
    }
}

#[test]
fn approve_unknown_inbox_item_is_not_found() {
    let mut e = engine();
    let err = e.approve_inbox(InboxItemId::new(), None).unwrap_err();
    assert!(matches!(err, BluesError::NotFound(_)));
}

#[test]
fn inbox_filter_kind_and_min_confidence() {
    let mut e = engine();
    let p = ProjectId::new();

    let mut a = semantic("high-confidence semantic");
    a.confidence = Some(900_000);
    e.save(p, a).unwrap();

    let mut b = semantic("low-confidence semantic");
    b.confidence = Some(300_000);
    e.save(p, b).unwrap();

    let mut c = semantic("procedural high");
    c.kind = MemoryType::Procedural;
    c.confidence = Some(900_000);
    e.save(p, c).unwrap();

    let only_sem_high = e
        .list_inbox(p, InboxFilter { kind: Some(MemoryType::Semantic), min_confidence: Some(500_000), limit: None })
        .unwrap();
    assert_eq!(only_sem_high.items.len(), 1);
    assert_eq!(only_sem_high.items[0].content, "high-confidence semantic");
}
