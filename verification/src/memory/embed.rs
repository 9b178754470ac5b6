//! Embedding provider abstraction and the deterministic hash-bucket embedder
//! the engine ships with, so recall can be exercised without a model.
//!
//! An embedding is held as the bucket counts the hash embedder accumulates;
//! cosine similarity is scale-free, so the counts rank candidates exactly as
//! their L2-normalised form does.

use vstd::prelude::*;
use crate::base::error::BluesError;
use crate::text::words;

verus! {

/// Fixed embedding dimension.
pub const EMBED_DIM: usize = 128;

/// Largest bucket count: the point at which a single-precision counter that
/// adds 1.0 per token stops growing.
pub const COUNT_CAP: u32 = 16_777_216;

/// An embedding the recall arithmetic accepts: `EMBED_DIM` counts, none above
/// `COUNT_CAP`.
pub open spec fn valid_embedding(v: Seq<u32>) -> bool {
    &&& v.len() == EMBED_DIM
    &&& forall|i: int| 0 <= i < v.len() ==> #[trigger] v[i] <= COUNT_CAP
}

/// Source of embeddings. `spec_embed` names what an implementation computes
/// for a text; every successful `embed` returns exactly that. An embedder
/// that declares itself `infallible` never fails.
pub trait Embedder {
    spec fn spec_embed(&self, text: Seq<char>) -> Seq<u32>;

    /// Whether `embed` succeeds on every text.
    spec fn infallible(&self) -> bool;

    fn dim(&self) -> (r: usize)
        ensures
            r == EMBED_DIM,
    ;

    fn embed(&self, text: &str) -> (r: Result<Vec<u32>, BluesError>)
        ensures
            r is Ok ==> r->Ok_0@ == self.spec_embed(text@) && valid_embedding(r->Ok_0@),
            self.infallible() ==> r is Ok,
    ;
}

/// FNV-1a over `bytes`.
pub open spec fn fnv1a_spec(bytes: Seq<u8>) -> u64
    decreases bytes.len(),
{
    if bytes.len() == 0 {
        0xcbf29ce484222325
    } else {
        let h = fnv1a_spec(bytes.drop_last());
        (((h ^ (bytes.last() as u64)) as nat * 0x100000001b3nat) % 0x1_0000_0000_0000_0000nat) as u64
    }
}

/// 64-bit FNV-1a hash.
pub fn fnv1a(bytes: &[u8]) -> (r: u64)
    ensures
        r == fnv1a_spec(bytes@),
{
    let mut h: u64 = 0xcbf29ce484222325;
    let mut i: usize = 0;
    while i < bytes.len()
        invariant
            i <= bytes@.len(),
            h == fnv1a_spec(bytes@.take(i as int)),
        decreases bytes@.len() - i,
    {
        assert(bytes@.take(i + 1).drop_last() =~= bytes@.take(i as int));
        h = (h ^ (bytes[i] as u64)).wrapping_mul(0x100000001b3u64);
        i = i + 1;
    }
    assert(bytes@.take(i as int) =~= bytes@);
    h
}

/// The bucket a token hashes into.
pub open spec fn bucket_of(token: Seq<char>) -> int {
    (fnv1a_spec(vstd::utf8::encode_utf8(token)) % (EMBED_DIM as u64)) as int
}

/// Bucket counts after hashing `toks` in order, each count saturating at `COUNT_CAP`.
pub open spec fn bucket_counts(toks: Seq<Seq<char>>) -> Seq<u32>
    decreases toks.len(),
{
    if toks.len() == 0 {
        Seq::new(EMBED_DIM as nat, |i: int| 0u32)
    } else {
        let c = bucket_counts(toks.drop_last());
        let b = bucket_of(toks.last());
        if c[b] < COUNT_CAP {
            c.update(b, (c[b] + 1) as u32)
        } else {
            c
        }
    }
}

proof fn lemma_bucket_counts_valid(toks: Seq<Seq<char>>)
    ensures
        valid_embedding(bucket_counts(toks)),
    decreases toks.len(),
{
    if toks.len() > 0 {
        lemma_bucket_counts_valid(toks.drop_last());
    }
}

/// Deterministic, content-addressed embedder: each token (the text split at
/// white space, ASCII-lowercased) adds one to the bucket its FNV-1a hash
/// selects.
#[derive(Debug, Clone, Copy, Default)]
pub struct HashEmbedder;

impl HashEmbedder {
    pub fn new() -> (r: HashEmbedder)
        ensures
            r == HashEmbedder,
    {
        HashEmbedder
    }
}

impl Embedder for HashEmbedder {
    open spec fn spec_embed(&self, text: Seq<char>) -> Seq<u32> {
        bucket_counts(words(text))
    }

    open spec fn infallible(&self) -> bool {
        true
    }

    fn dim(&self) -> (r: usize) {
        EMBED_DIM
    }

    fn embed(&self, text: &str) -> (r: Result<Vec<u32>, BluesError>)
        ensures
            r is Ok,
            r->Ok_0@ == bucket_counts(words(text@)),
    {
        let toks = crate::text::split_words(text);
        let ghost tv = toks@.map_values(|t: String| t@);
        let mut v: Vec<u32> = Vec::new();
        let mut k: usize = 0;
        while k < EMBED_DIM
            invariant
                k <= EMBED_DIM,
                v@ =~= Seq::new(k as nat, |i: int| 0u32),
            decreases EMBED_DIM - k,
        {
            v.push(0);
            k = k + 1;
        }
        let mut i: usize = 0;
        while i < toks.len()
            invariant
                i <= toks@.len(),
                tv == toks@.map_values(|t: String| t@),
                v@ == bucket_counts(tv.take(i as int)),
            decreases toks@.len() - i,
        {
            proof {
                lemma_bucket_counts_valid(tv.take(i as int));
            }
            let bytes = toks[i].as_str().as_bytes();
            let h = fnv1a(bytes);
            let b = (h % 128) as usize;
            assert(tv.take(i + 1).drop_last() =~= tv.take(i as int));
            assert(tv.take(i + 1).last() == toks@[i as int]@);
            if v[b] < COUNT_CAP {
                let n = v[b] + 1;
                v.set(b, n);
            }
            i = i + 1;
        }
        assert(tv.take(i as int) =~= tv);
        proof {
            lemma_bucket_counts_valid(tv);
        }
        Ok(v)
    }
}

} // verus!
