use blues::base::ids::EpisodeId;
use blues::memory::store::decode_fts_rows;
use blues::base::ids::{FactId, InboxItemId, ProjectId};
use blues::base::memory::MemoryType;
use blues::memory::consolidate::decay;
use blues::memory::embed::{Embedder, HashEmbedder};
use blues::memory::store::{default_provenance, ensure_dim, kind_from_str, kind_to_str, sanitize_fts, InboxRow, SqliteStore};
use blues::memory::types::HitId;
use blues::base::error::BluesError;

fn store() -> SqliteStore {
    SqliteStore::open_in_memory().unwrap()
}

#[test]
fn schema_inits_clean_in_memory() {
    let _ = store();
}

#[test]
fn inbox_insert_then_list_then_get_then_delete() {
    let mut s = store();
    let p = ProjectId::new();
    let item = InboxRow {
        id: InboxItemId::new(),
        kind: MemoryType::Semantic,
        content: "auth.ts owns logout flow".into(),
        confidence: 700_000,
        provenance: default_provenance(Some("agent:smart")),
        plan_id: None,
        node_id: None,
    };
    s.inbox_insert(p, &item).unwrap();

    let listed = s.inbox_list(p, None, None, 10).unwrap();
    assert_eq!(listed.len(), 1);
    assert_eq!(listed[0].content, "auth.ts owns logout flow");

    let got = s.inbox_get(item.id).unwrap().expect("found");
    assert_eq!(got.project, p);
    assert_eq!(got.row.kind, MemoryType::Semantic);

    s.inbox_delete(item.id).unwrap();
    assert!(s.inbox_get(item.id).unwrap().is_none());
}

#[test]
fn fact_insert_get_roundtrip() {
    let mut s = store();
    let e = HashEmbedder;
    let p = ProjectId::new();
    let id = FactId::new();
    let emb = e.embed("auth").unwrap();
    s.fact_insert(p, id, MemoryType::Semantic, "auth.ts owns logout", &emb, &default_provenance(None), 800_000)
        .unwrap();
    let got = s.fact_get(id).unwrap();
    assert_eq!(got.content, "auth.ts owns logout");
    assert_eq!(got.kind, MemoryType::Semantic);
    assert!(got.embedding.is_some());
}

#[test]
fn fts_finds_only_project_match() {
    let mut s = store();
    let e = HashEmbedder;
    let p1 = ProjectId::new();
    let p2 = ProjectId::new();
    let id = FactId::new();
    s.fact_insert(
        p1,
        id,
        MemoryType::Semantic,
        "logout flow lives in auth.ts",
        &e.embed("auth").unwrap(),
        &default_provenance(None),
        900_000,
    )
    .unwrap();
    let id2 = FactId::new();
    s.fact_insert(
        p2,
        id2,
        MemoryType::Semantic,
        "billing logic in pay.ts",
        &e.embed("pay").unwrap(),
        &default_provenance(None),
        900_000,
    )
    .unwrap();

    let hits = s.fts_search(p1, "logout", 10).unwrap();
    assert_eq!(hits.len(), 1);
    assert_eq!(hits[0].0, HitId::Fact(id));

    let hits2 = s.fts_search(p2, "logout", 10).unwrap();
    assert!(hits2.is_empty());
}

#[test]
fn decay_reduces_confidence() {
    let mut s = store();
    let e = HashEmbedder;
    let p = ProjectId::new();
    let id = FactId::new();
    s.fact_insert(p, id, MemoryType::Semantic, "x", &e.embed("x").unwrap(), &default_provenance(None), 1_000_000)
        .unwrap();
    let touched = s.decay(p, 500_000).unwrap();
    assert!(touched >= 1);
    let got = s.fact_get(id).unwrap();
    assert_eq!(got.confidence, 500_000);
}

#[test]
fn run_scales_confidence_by_factor() {
    let mut s = store();
    let p = ProjectId::new();
    let id = FactId::new();
    let emb = HashEmbedder.embed("x").unwrap();
    s.fact_insert(p, id, MemoryType::Semantic, "x", &emb, &default_provenance(None), 1_000_000).unwrap();
    decay::run(&mut s, p).unwrap();
    let got = s.fact_get(id).unwrap();
    assert_eq!(got.confidence, decay::FACTOR);
}

#[test]
fn decay_leaves_other_projects_and_clamps_the_factor() {
    let mut s = store();
    let e = HashEmbedder;
    let p = ProjectId::new();
    let q = ProjectId::new();
    let a = FactId::new();
    let b = FactId::new();
    s.fact_insert(p, a, MemoryType::Semantic, "a", &e.embed("a").unwrap(), &default_provenance(None), 333_333)
        .unwrap();
    s.fact_insert(q, b, MemoryType::Procedural, "b", &e.embed("b").unwrap(), &default_provenance(None), 800_000)
        .unwrap();
    assert_eq!(s.decay(p, 2_000_000).unwrap(), 1);
    assert_eq!(s.fact_get(a).unwrap().confidence, 333_333);
    assert_eq!(s.decay(p, 950_000).unwrap(), 1);
    // 333_333 * 0.95 = 316_666.35, rounded down.
    assert_eq!(s.fact_get(a).unwrap().confidence, 316_666);
    assert_eq!(s.fact_get(b).unwrap().confidence, 800_000);
}

#[test]
fn inbox_insert_refuses_a_taken_id_and_delete_of_unknown_is_not_found() {
    let mut s = store();
    let p = ProjectId::new();
    let row = InboxRow {
        id: InboxItemId(42),
        kind: MemoryType::Episodic,
        content: "seen".into(),
        confidence: 1,
        provenance: default_provenance(None),
        plan_id: None,
        node_id: None,
    };
    s.inbox_insert(p, &row).unwrap();
    assert!(matches!(s.inbox_insert(p, &row), Err(BluesError::Internal(_))));
    let err = s.inbox_delete(InboxItemId(7)).unwrap_err();
    assert!(matches!(err, BluesError::NotFound(ref m) if m == "inbox item 00000000000000000000000007"));
}

#[test]
fn inbox_list_filters_and_limits_oldest_first() {
    let mut s = store();
    let p = ProjectId::new();
    for (i, conf) in [100_000u32, 900_000, 600_000, 950_000].iter().enumerate() {
        let row = InboxRow {
            id: InboxItemId(i as u128 + 1),
            kind: if i == 2 { MemoryType::Procedural } else { MemoryType::Semantic },
            content: format!("row {i}"),
            confidence: *conf,
            provenance: default_provenance(None),
            plan_id: None,
            node_id: None,
        };
        s.inbox_insert(p, &row).unwrap();
    }
    let other = ProjectId::new();
    assert!(s.inbox_list(other, None, None, 10).unwrap().is_empty());
    let all = s.inbox_list(p, None, None, 2).unwrap();
    assert_eq!(all.iter().map(|r| r.content.as_str()).collect::<Vec<_>>(), vec!["row 0", "row 1"]);
    let high = s.inbox_list(p, Some(MemoryType::Semantic), Some(600_000), 10).unwrap();
    assert_eq!(high.iter().map(|r| r.content.as_str()).collect::<Vec<_>>(), vec!["row 1", "row 3"]);
}

#[test]
fn fact_get_of_unknown_is_not_found_with_its_id() {
    let s = store();
    let err = s.fact_get(FactId(0)).unwrap_err();
    assert!(matches!(err, BluesError::NotFound(ref m) if m == "fact 00000000000000000000000000"));
    assert!(s.fact_provenance(FactId(0)).is_err());
}

#[test]
fn fact_insert_refuses_a_taken_id_and_a_bad_embedding() {
    let mut s = store();
    let p = ProjectId::new();
    let id = FactId::new();
    let emb = HashEmbedder.embed("x").unwrap();
    s.fact_insert(p, id, MemoryType::Semantic, "x", &emb, &default_provenance(None), 1).unwrap();
    assert!(matches!(
        s.fact_insert(p, id, MemoryType::Semantic, "y", &emb, &default_provenance(None), 1),
        Err(BluesError::Internal(_))
    ));
    let short = vec![0u32; 3];
    assert!(matches!(
        s.fact_insert(p, FactId::new(), MemoryType::Semantic, "z", &short, &default_provenance(None), 1),
        Err(BluesError::Internal(_))
    ));
}

#[test]
fn episodes_are_stored_and_searched() {
    let mut s = store();
    let p = ProjectId::new();
    let id = blues::base::ids::EpisodeId::new();
    s.episode_insert(p, id, "deploy failed at midnight", &HashEmbedder.embed("deploy").unwrap(), &default_provenance(None), 5)
        .unwrap();
    let got = s.episode_get(id).unwrap();
    assert_eq!(got.kind, MemoryType::Episodic);
    assert_eq!(got.content, "deploy failed at midnight");
    let hits = s.fts_search(p, "midnight", 10).unwrap();
    assert_eq!(hits, vec![(HitId::Episode(id), MemoryType::Episodic)]);
    assert_eq!(s.confirmed_all(p, Some(MemoryType::Episodic)).unwrap().len(), 1);
    assert!(s.confirmed_all(p, Some(MemoryType::Semantic)).unwrap().is_empty());
}

#[test]
fn fts_query_keeps_only_alphanumeric_tokens() {
    assert_eq!(sanitize_fts("Logout-flow (auth.ts)!"), "logout OR flow OR auth OR ts");
    assert_eq!(sanitize_fts("  *** "), "");
    let s = store();
    assert!(s.fts_search(ProjectId::new(), "\"*", 10).unwrap().is_empty());
}

#[test]
fn kind_text_round_trips_and_rejects_unknown_text() {
    for k in [MemoryType::Episodic, MemoryType::Semantic, MemoryType::Procedural] {
        assert_eq!(kind_from_str(kind_to_str(k)).unwrap(), k);
    }
    let err = kind_from_str("dream").unwrap_err();
    assert!(matches!(err, BluesError::Internal(ref m) if m == "bad memory kind in db: dream"));
}

#[test]
fn ensure_dim_names_the_wrong_length() {
    assert!(ensure_dim(&vec![0u32; 128]).is_ok());
    let err = ensure_dim(&vec![0u32; 3]).unwrap_err();
    assert!(matches!(err, BluesError::Internal(ref m) if m == "embedding dim mismatch: got 3, want 128"));
}

#[test]
fn attach_step_appends_a_stamped_step() {
    let mut p = default_provenance(Some("agent:smart"));
    blues::memory::store::attach_step(&mut p, "ingest", "memory");
    assert_eq!(p.sources.len(), 1);
    assert_eq!(p.chain.len(), 1);
    assert_eq!(p.chain[0].action, "ingest");
    assert_eq!(p.chain[0].by, "memory");
    // stamped after 2020-01-01T00:00:00Z
    assert!(p.chain[0].at > 1_577_836_800_000_000_000);
}

#[test]
fn fts_rows_decode_in_order_and_refuse_bad_rows() {
    let f = FactId(7);
    let e = EpisodeId(9);
    let rows = vec![(e.to_string(), "episodic".to_string()), (f.to_string(), "procedural".to_string())];
    assert_eq!(
        decode_fts_rows(&rows).unwrap(),
        vec![(HitId::Episode(e), MemoryType::Episodic), (HitId::Fact(f), MemoryType::Procedural)]
    );
    let bad_kind = vec![(f.to_string(), "dream".to_string())];
    assert!(matches!(decode_fts_rows(&bad_kind), Err(BluesError::Internal(_))));
    let bad_id = vec![("nope".to_string(), "semantic".to_string())];
    assert!(matches!(decode_fts_rows(&bad_id), Err(BluesError::Internal(ref m)) if m == "fact id decode: nope"));
    assert!(decode_fts_rows(&Vec::new()).unwrap().is_empty());
}

#[test]
fn fts_merges_facts_and_episodes_best_match_first() {
    let mut s = store();
    let p = ProjectId::new();
    let emb = HashEmbedder.embed("x").unwrap();
    let fact = FactId::new();
    s.fact_insert(p, fact, MemoryType::Semantic, "midnight deploy notes with many more words about the pipeline and its stages", &emb, &default_provenance(None), 1).unwrap();
    s.fact_insert(p, FactId::new(), MemoryType::Semantic, "alpha", &emb, &default_provenance(None), 1).unwrap();
    s.fact_insert(p, FactId::new(), MemoryType::Semantic, "beta", &emb, &default_provenance(None), 1).unwrap();
    let ep = EpisodeId::new();
    s.episode_insert(p, ep, "midnight", &emb, &default_provenance(None), 1).unwrap();
    s.episode_insert(p, EpisodeId::new(), "gamma delta epsilon zeta eta theta iota kappa", &emb, &default_provenance(None), 1).unwrap();
    s.episode_insert(p, EpisodeId::new(), "lambda mu nu xi omicron pi rho sigma tau", &emb, &default_provenance(None), 1).unwrap();
    let hits = s.fts_search(p, "midnight", 10).unwrap();
    assert_eq!(hits, vec![(HitId::Episode(ep), MemoryType::Episodic), (HitId::Fact(fact), MemoryType::Semantic)]);
}

#[test]
fn refused_duplicate_fact_leaves_the_index_alone() {
    let mut s = store();
    let p = ProjectId::new();
    let id = FactId::new();
    let emb = HashEmbedder.embed("x").unwrap();
    s.fact_insert(p, id, MemoryType::Semantic, "alpha", &emb, &default_provenance(None), 1).unwrap();
    assert!(s.fact_insert(p, id, MemoryType::Semantic, "alpha omega", &emb, &default_provenance(None), 1).is_err());
    assert!(s.fts_search(p, "omega", 10).unwrap().is_empty());
    assert_eq!(s.fact_get(id).unwrap().content, "alpha");
}
