use blues::base::memory::MemoryType;
use blues::base::ids::FactId;
use blues::memory::compiler::admit_hits;
use blues::memory::store::default_provenance;
use blues::memory::types::{FusedScore, HitId, MemoryHit};
use blues::memory::compiler::{estimate_tokens, estimate_total};
use blues::memory::embed::{fnv1a, Embedder, HashEmbedder, EMBED_DIM};
use blues::text::{decimal_text, is_blank, join_strings, tokenize};

fn cosine(a: &[u32], b: &[u32]) -> f64 {
    let mut dot = 0f64;
    let mut na = 0f64;
    let mut nb = 0f64;
    for (x, y) in a.iter().zip(b) {
        let (x, y) = (*x as f64, *y as f64);
        dot += x * y;
        na += x * x;
        nb += y * y;
    }
    let d = (na.sqrt() * nb.sqrt()).max(f64::EPSILON);
    dot / d
}

#[test]
fn hash_embedder_is_deterministic() {
    let e = HashEmbedder;
    let a = e.embed("hello world").unwrap();
    let b = e.embed("hello world").unwrap();
    assert_eq!(a, b);
}

#[test]
fn hash_embedder_separates_distinct_text() {
    let e = HashEmbedder;
    let a = e.embed("logout flow").unwrap();
    let b = e.embed("totally unrelated payment retry").unwrap();
    assert!(cosine(&a, &b) < 0.5, "cos {} too high", cosine(&a, &b));
}

#[test]
fn hash_embedder_overlap_is_higher_than_disjoint() {
    let e = HashEmbedder;
    let q = e.embed("logout flow").unwrap();
    let near = e.embed("logout cleanup flow").unwrap();
    let far = e.embed("payment retry tax").unwrap();
    assert!(cosine(&q, &near) > cosine(&q, &far));
}

#[test]
fn hash_embedder_counts_tokens_into_buckets() {
    let e = HashEmbedder::new();
    assert_eq!(e.dim(), EMBED_DIM);
    let v = e.embed("Logout logout\tLOGOUT").unwrap();
    assert_eq!(v.len(), 128);
    let bucket = (fnv1a(b"logout") % 128) as usize;
    assert_eq!(v[bucket], 3);
    assert_eq!(v.iter().map(|c| *c as u64).sum::<u64>(), 3);
    assert!(e.embed("  ").unwrap().iter().all(|c| *c == 0));
}

#[test]
fn fnv1a_matches_reference_values() {
    assert_eq!(fnv1a(b""), 0xcbf29ce484222325);
    assert_eq!(fnv1a(b"a"), 0xaf63dc4c8601ec8c);
    assert_eq!(fnv1a(b"foobar"), 0x85944171f73967e8);
}

#[test]
fn tokenize_splits_on_non_alphanumerics_and_folds_ascii() {
    assert_eq!(tokenize("Auth.ts owns LOGOUT-flow"), vec!["auth", "ts", "owns", "logout", "flow"]);
    assert!(tokenize("--- ").is_empty());
    assert_eq!(tokenize("Café ÉTÉ"), vec!["café", "ÉtÉ"]);
}

#[test]
fn blank_text_is_all_white_space() {
    assert!(is_blank(""));
    assert!(is_blank(" \n\t\u{3000}"));
    assert!(!is_blank("  x "));
}

#[test]
fn decimal_and_join_texts() {
    assert_eq!(decimal_text(0), "0");
    assert_eq!(decimal_text(1234567890), "1234567890");
    assert_eq!(decimal_text(u64::MAX), "18446744073709551615");
    let parts = vec!["a".to_string(), "bc".to_string(), "d".to_string()];
    assert_eq!(join_strings(&parts, " OR "), "a OR bc OR d");
    assert_eq!(join_strings(&Vec::new(), ","), "");
}

#[test]
fn token_estimate_is_one_per_started_four_characters() {
    assert_eq!(estimate_tokens(""), 0);
    assert_eq!(estimate_tokens("abc"), 1);
    assert_eq!(estimate_tokens("abcd"), 1);
    assert_eq!(estimate_tokens("abcde"), 2);
    assert_eq!(estimate_tokens("logout one"), 3);
    assert_eq!(estimate_tokens("ééééé"), 2);
    let blocks = vec!["abcd".to_string(), "abcde".to_string(), String::new()];
    assert_eq!(estimate_total(&blocks), 3);
}

#[test]
fn hash_embedder_splits_at_white_space_only() {
    let v = HashEmbedder.embed("logout,flow").unwrap();
    assert_eq!(v.iter().filter(|c| **c != 0).count(), 1);
    let bucket = (fnv1a(b"logout,flow") % 128) as usize;
    assert_eq!(v[bucket], 1);
    let w = HashEmbedder.embed("  Auth.ts\n").unwrap();
    assert_eq!(w[(fnv1a(b"auth.ts") % 128) as usize], 1);
    assert_eq!(blues::text::split_words(" A.b  c\t"), vec!["a.b", "c"]);
}

#[test]
fn packing_stops_at_the_first_block_over_budget() {
    let hit = |n: u128, text: &str| MemoryHit {
        score: FusedScore { fts_rank: Some(0), vec_rank: None },
        kind: MemoryType::Semantic,
        content: text.to_string(),
        provenance: default_provenance(None),
        id: HitId::Fact(FactId(n)),
    };
    // 45 characters (12 tokens), then 1 character (1 token), budget 2.
    let hits = vec![hit(1, "a block of forty-five characters, give or tak"), hit(2, "x")];
    let cc = admit_hits(&hits, 2);
    assert!(cc.blocks.is_empty());
    assert_eq!(cc.omitted, 2);
    assert_eq!(cc.total_tokens, 0);
    // a repeat is skipped without stopping the packing
    let hits = vec![hit(1, "ab"), hit(2, "ab"), hit(3, "cd")];
    let cc = admit_hits(&hits, 2);
    assert_eq!(cc.blocks.iter().map(|b| b.text.as_str()).collect::<Vec<_>>(), vec!["ab", "cd"]);
    assert_eq!(cc.omitted, 1);
}
