//! Budget-aware context compiler: pulls a deep recall pool, admits blocks in
//! score order, drops duplicate content, stops at the first block that would
//! go over the token budget, and so never exceeds it.
//! A block costs one token per started group of four characters.

use vstd::prelude::*;
use crate::base::error::BluesError;
use crate::base::memory::MemoryType;
use crate::memory::embed::Embedder;
use crate::memory::recall::{recall, recall_spec, route_pool};
use crate::memory::store::SqliteStore;
use crate::memory::types::{
    CompiledContext, ContextBlock, ContextBlockView, ContextRequest, HitId, MemoryHit, MemoryHitView,
    MemoryQuery, Scope,
};

verus! {

/// Characters per estimated token.
pub const TOKENS_PER_CHAR_DENOM: usize = 4;

/// Candidates pulled per 32 tokens of budget, before deduplication.
pub const POOL_MULTIPLIER: usize = 4;

/// Least number of candidates pulled, however small the budget.
pub const MIN_POOL: usize = 16;

/// Estimated tokens of a text of `n` characters: `ceil(n / 4)`.
pub open spec fn tokens_for(n: nat) -> nat {
    if n % 4 == 0 {
        n / 4
    } else {
        n / 4 + 1
    }
}

/// Estimated token count of `text`: 0 when empty, else one per started
/// group of four characters.
pub fn estimate_tokens(text: &str) -> (r: usize)
    ensures
        r == tokens_for(text@.len()),
{
    let n = text.unicode_len();
    if n % TOKENS_PER_CHAR_DENOM == 0 {
        n / TOKENS_PER_CHAR_DENOM
    } else {
        n / TOKENS_PER_CHAR_DENOM + 1
    }
}

/// The summed estimate of `texts`.
pub open spec fn tokens_total(texts: Seq<Seq<char>>) -> nat
    decreases texts.len(),
{
    if texts.len() == 0 {
        0
    } else {
        tokens_total(texts.drop_last()) + tokens_for(texts.last().len())
    }
}

/// The summed token estimate of `blocks`.
pub fn estimate_total(blocks: &Vec<String>) -> (r: usize)
    requires
        tokens_total(blocks@.map_values(|s: String| s@)) <= usize::MAX,
    ensures
        r == tokens_total(blocks@.map_values(|s: String| s@)),
{
    let ghost tv = blocks@.map_values(|s: String| s@);
    let mut total: usize = 0;
    let mut i: usize = 0;
    while i < blocks.len()
        invariant
            i <= blocks@.len(),
            tv == blocks@.map_values(|s: String| s@),
            tokens_total(tv) <= usize::MAX,
            total == tokens_total(tv.take(i as int)),
        decreases blocks@.len() - i,
    {
        assert(tv.take(i + 1).drop_last() =~= tv.take(i as int));
        proof {
            lemma_tokens_total_prefix(tv, i + 1);
        }
        total = total + estimate_tokens(blocks[i].as_str());
        i = i + 1;
    }
    assert(tv.take(i as int) =~= tv);
    total
}

proof fn lemma_tokens_total_prefix(t: Seq<Seq<char>>, k: int)
    requires
        0 <= k <= t.len(),
    ensures
        tokens_total(t.take(k)) <= tokens_total(t),
    decreases t.len() - k,
{
    if k < t.len() {
        lemma_tokens_total_prefix(t, k + 1);
        assert(t.take(k + 1).drop_last() =~= t.take(k));
    } else {
        assert(t.take(k) =~= t);
    }
}

/// Progress of the greedy admission over a prefix of the ranked hits.
pub struct CompileState {
    pub blocks: Seq<ContextBlockView>,
    pub total: int,
    pub seen: Seq<Seq<char>>,
    pub omitted: int,
    /// The position of the hit at which admission stopped, if it did.
    pub stop: Option<int>,
    /// The positions of the admitted hits, in order.
    pub picked: Seq<int>,
}

/// The block a hit becomes when it is admitted.
pub open spec fn block_of(h: MemoryHitView) -> ContextBlockView {
    ContextBlockView { kind: h.kind, text: h.content, provenance: h.provenance, tokens: tokens_for(h.content.len()) as usize }
}

/// Greedy admission, hit by hit in rank order: content seen before is
/// omitted; otherwise it is marked seen and admitted while its estimate still
/// fits in `budget`. The first block that would go over the budget stops the
/// packing: it and every later hit are omitted.
pub open spec fn admit_steps(hits: Seq<MemoryHitView>, budget: usize) -> CompileState
    decreases hits.len(),
{
    if hits.len() == 0 {
        CompileState { blocks: Seq::empty(), total: 0, seen: Seq::empty(), omitted: 0, stop: None, picked: Seq::empty() }
    } else {
        let st = admit_steps(hits.drop_last(), budget);
        let h = hits.last();
        if st.stop is Some || st.seen.contains(h.content) {
            CompileState { omitted: st.omitted + 1, ..st }
        } else {
            let t = tokens_for(h.content.len());
            if st.total + t > budget {
                CompileState { omitted: st.omitted + 1, stop: Some(hits.len() - 1), ..st }
            } else {
                CompileState {
                    blocks: st.blocks.push(block_of(h)),
                    total: st.total + t,
                    seen: st.seen.push(h.content),
                    omitted: st.omitted,
                    stop: None,
                    picked: st.picked.push(hits.len() - 1),
                }
            }
        }
    }
}

/// The sum of the tokens of `blocks`.
pub open spec fn block_tokens(blocks: Seq<ContextBlockView>) -> int
    decreases blocks.len(),
{
    if blocks.len() == 0 {
        0
    } else {
        block_tokens(blocks.drop_last()) + blocks.last().tokens
    }
}

/// What greedy admission promises: the admitted blocks cost at most `budget`
/// tokens in all (their `tokens` summing to the total), every hit is either
/// admitted or counted as omitted, no two admitted blocks carry the same text,
/// and the texts seen are exactly the contents of the hits before the stop.
pub proof fn lemma_admit_invariants(hits: Seq<MemoryHitView>, budget: usize)
    ensures
        0 <= admit_steps(hits, budget).total <= budget,
        admit_steps(hits, budget).total == block_tokens(admit_steps(hits, budget).blocks),
        admit_steps(hits, budget).blocks.len() + admit_steps(hits, budget).omitted == hits.len(),
        0 <= admit_steps(hits, budget).omitted,
        admit_steps(hits, budget).seen.len() <= hits.len(),
        admit_steps(hits, budget).seen == admit_steps(hits, budget).blocks.map_values(|b: ContextBlockView| b.text),
        forall|i: int, j: int|
            0 <= i < j < admit_steps(hits, budget).blocks.len() ==> (#[trigger] admit_steps(hits, budget).blocks[i]).text
                != (#[trigger] admit_steps(hits, budget).blocks[j]).text,
        forall|i: int|
            0 <= i < admit_steps(hits, budget).blocks.len() ==> admit_steps(hits, budget).seen.contains(
                (#[trigger] admit_steps(hits, budget).blocks[i]).text,
            ),
    decreases hits.len(),
{
    if hits.len() > 0 {
        lemma_admit_invariants(hits.drop_last(), budget);
        let st = admit_steps(hits.drop_last(), budget);
        let n = admit_steps(hits, budget);
        let h = hits.last();
        if n.blocks.len() > st.blocks.len() {
            assert(n.blocks.drop_last() =~= st.blocks);
            assert(!st.seen.contains(h.content));
            assert(n.seen =~= n.blocks.map_values(|b: ContextBlockView| b.text));
            assert forall|i: int| 0 <= i < n.blocks.len() implies n.seen.contains((#[trigger] n.blocks[i]).text) by {
                assert(n.seen[i] == n.blocks[i].text);
            }
            assert forall|i: int, j: int| 0 <= i < j < n.blocks.len() implies (#[trigger] n.blocks[i]).text
                != (#[trigger] n.blocks[j]).text by {
                if j < st.blocks.len() {
                    assert(n.blocks[i] == st.blocks[i] && n.blocks[j] == st.blocks[j]);
                } else {
                    assert(n.blocks[i] == st.blocks[i]);
                    assert(st.seen.contains(st.blocks[i].text));
                }
            }
        }
    }
}

/// The admitted blocks are hits mapped field by field (`block_of`), at the
/// positions `picked`, which rise strictly.
#[verifier::opaque]
pub open spec fn picks_blocks(hits: Seq<MemoryHitView>, st: CompileState) -> bool {
    &&& st.picked.len() == st.blocks.len()
    &&& forall|i: int|
        0 <= i < st.picked.len() ==> 0 <= #[trigger] st.picked[i] < hits.len() && st.blocks[i] == block_of(
            hits[st.picked[i]],
        )
    &&& forall|i: int, j: int| 0 <= i < j < st.picked.len() ==> #[trigger] st.picked[i] < #[trigger] st.picked[j]
}

/// While packing has not stopped, every hit not admitted repeats the content
/// of an earlier hit, and every hit's content has been seen.
#[verifier::opaque]
pub open spec fn skips_only_repeats(hits: Seq<MemoryHitView>, st: CompileState) -> bool {
    st.stop is None ==> {
        &&& forall|j: int|
            0 <= j < hits.len() ==> st.picked.contains(j) || exists|k: int|
                0 <= k < j && (#[trigger] hits[k]).content == (#[trigger] hits[j]).content
        &&& forall|j: int| 0 <= j < hits.len() ==> st.seen.contains((#[trigger] hits[j]).content)
    }
}

/// When packing stopped at hit `s`: that hit's content was new, it would have
/// gone over the budget, and every admitted hit comes before it.
#[verifier::opaque]
pub open spec fn stops_at_overflow(hits: Seq<MemoryHitView>, budget: usize, st: CompileState) -> bool {
    st.stop matches Some(s) ==> {
        &&& 0 <= s < hits.len()
        &&& st.total + tokens_for(hits[s].content.len()) > budget
        &&& forall|j: int| 0 <= j < s ==> (#[trigger] hits[j]).content != hits[s].content
        &&& forall|i: int| 0 <= i < st.picked.len() ==> #[trigger] st.picked[i] < s
    }
}

proof fn lemma_picks_blocks(hits: Seq<MemoryHitView>, budget: usize)
    ensures
        picks_blocks(hits, admit_steps(hits, budget)),
    decreases hits.len(),
{
    reveal(picks_blocks);
    if hits.len() > 0 {
        let prev = hits.drop_last();
        lemma_picks_blocks(prev, budget);
        let st = admit_steps(prev, budget);
        let n = admit_steps(hits, budget);
        if n.picked.len() > st.picked.len() {
            assert forall|i: int| 0 <= i < n.picked.len() implies 0 <= #[trigger] n.picked[i] < hits.len()
                && n.blocks[i] == block_of(hits[n.picked[i]]) by {
                if i < st.picked.len() {
                    assert(n.picked[i] == st.picked[i]);
                    assert(n.blocks[i] == st.blocks[i]);
                    assert(prev[st.picked[i]] == hits[st.picked[i]]);
                }
            }
        }
    }
}

#[verifier::rlimit(40)]
#[verifier::spinoff_prover]
proof fn lemma_skips_only_repeats(hits: Seq<MemoryHitView>, budget: usize)
    ensures
        skips_only_repeats(hits, admit_steps(hits, budget)),
    decreases hits.len(),
{
    reveal(skips_only_repeats);
    if hits.len() > 0 {
        let prev = hits.drop_last();
        lemma_skips_only_repeats(prev, budget);
        lemma_picks_blocks(prev, budget);
        lemma_admit_invariants(prev, budget);
        reveal(picks_blocks);
        let st = admit_steps(prev, budget);
        let n = admit_steps(hits, budget);
        let last = hits.len() - 1;
        let h = hits.last();
        if n.stop is None {
            assert(st.stop is None);
            assert forall|j: int| 0 <= j < hits.len() implies n.picked.contains(j) || exists|k: int|
                0 <= k < j && (#[trigger] hits[k]).content == (#[trigger] hits[j]).content by {
                if j < last {
                    assert(prev[j] == hits[j]);
                    if st.picked.contains(j) {
                        let m = choose|m: int| 0 <= m < st.picked.len() && st.picked[m] == j;
                        assert(n.picked[m] == j);
                    } else {
                        let k = choose|k: int| 0 <= k < j && (#[trigger] prev[k]).content == (#[trigger] prev[j]).content;
                        assert(prev[k] == hits[k]);
                    }
                } else if st.seen.contains(h.content) {
                    let m = choose|m: int| 0 <= m < st.seen.len() && st.seen[m] == h.content;
                    assert(st.seen[m] == st.blocks[m].text);
                    let k = st.picked[m];
                    assert(st.blocks[m] == block_of(prev[k]));
                    assert(prev[k] == hits[k]);
                } else {
                    assert(n.picked[n.picked.len() - 1] == j);
                }
            }
            assert forall|j: int| 0 <= j < hits.len() implies n.seen.contains((#[trigger] hits[j]).content) by {
                if j < last {
                    assert(prev[j] == hits[j]);
                    let m = choose|m: int| 0 <= m < st.seen.len() && st.seen[m] == prev[j].content;
                    if n.seen.len() > st.seen.len() {
                        assert(n.seen[m] == st.seen[m]);
                    }
                } else if !st.seen.contains(h.content) {
                    assert(n.seen[n.seen.len() - 1] == h.content);
                }
            }
        }
    }
}

proof fn lemma_stops_at_overflow(hits: Seq<MemoryHitView>, budget: usize)
    ensures
        stops_at_overflow(hits, budget, admit_steps(hits, budget)),
    decreases hits.len(),
{
    reveal(stops_at_overflow);
    if hits.len() > 0 {
        let prev = hits.drop_last();
        lemma_stops_at_overflow(prev, budget);
        lemma_skips_only_repeats(prev, budget);
        lemma_picks_blocks(prev, budget);
        reveal(skips_only_repeats);
        reveal(picks_blocks);
        let st = admit_steps(prev, budget);
        let n = admit_steps(hits, budget);
        let last = hits.len() - 1;
        let h = hits.last();
        if st.stop is Some {
            let s = st.stop->Some_0;
            assert(hits[s] == prev[s]);
            assert forall|j: int| 0 <= j < s implies (#[trigger] hits[j]).content != hits[s].content by {
                assert(prev[j] == hits[j]);
            }
        } else if n.stop is Some {
            assert(n.stop == Some(last));
            assert forall|j: int| 0 <= j < last implies (#[trigger] hits[j]).content != hits[last].content by {
                assert(prev[j] == hits[j]);
                assert(st.seen.contains(prev[j].content));
            }
        }
    }
}

/// The admitted blocks are an order-preserving subsequence of the hits, each
/// hit mapped field by field (`block_of`); when packing stopped at hit `s`,
/// that hit's content is new, it would have gone over the budget, and no hit
/// from `s` on is admitted; when it did not stop, every hit not admitted
/// repeats the content of an earlier one.
pub proof fn lemma_admit_order(hits: Seq<MemoryHitView>, budget: usize)
    ensures
        picks_blocks(hits, admit_steps(hits, budget)),
        skips_only_repeats(hits, admit_steps(hits, budget)),
        stops_at_overflow(hits, budget, admit_steps(hits, budget)),
{
    lemma_picks_blocks(hits, budget);
    lemma_skips_only_repeats(hits, budget);
    lemma_stops_at_overflow(hits, budget);
}

/// The first hit, when it fits the budget, is always the first block.
proof fn lemma_admit_first(hits: Seq<MemoryHitView>, budget: usize)
    requires
        hits.len() > 0,
        tokens_for(hits[0].content.len()) <= budget,
    ensures
        admit_steps(hits, budget).blocks.len() > 0,
        admit_steps(hits, budget).blocks[0] == block_of(hits[0]),
    decreases hits.len(),
{
    if hits.len() == 1 {
        assert(admit_steps(hits.drop_last(), budget).blocks.len() == 0);
        assert(!admit_steps(hits.drop_last(), budget).seen.contains(hits[0].content));
    } else {
        let prev = hits.drop_last();
        assert(prev[0] == hits[0]);
        lemma_admit_first(prev, budget);
    }
}

/// The compiler draws on every layer: its blocks are an order-preserving
/// subsequence of the hits of a recall over all layers (no layer filter) for
/// the task, with the compiler's pool, each hit mapped field by field; and
/// the best of those hits, whatever its layer, is the first block when it fits
/// the budget.
pub proof fn lemma_compile_reads_every_layer(
    v: crate::memory::store::StoreView,
    req: ContextRequest,
    raw: Seq<(HitId, MemoryType)>,
    qvec: Seq<u32>,
)
    ensures
        ({
            let hits = recall_spec(v, req.project, compile_pool(req.token_budget), None, raw, qvec);
            hits.len() > 0 && tokens_for(hits[0].content.len()) <= req.token_budget ==> compile_spec(
                v,
                req,
                raw,
                qvec,
            ).blocks.len() > 0 && compile_spec(v, req, raw, qvec).blocks[0] == block_of(hits[0])
        }),
        forall|i: int|
            0 <= i < compile_spec(v, req, raw, qvec).blocks.len() ==> exists|j: int|
                0 <= j < recall_spec(v, req.project, compile_pool(req.token_budget), None, raw, qvec).len()
                    && (#[trigger] compile_spec(v, req, raw, qvec).blocks[i]) == block_of(
                    recall_spec(v, req.project, compile_pool(req.token_budget), None, raw, qvec)[j],
                ),
{
    let hits = recall_spec(v, req.project, compile_pool(req.token_budget), None, raw, qvec);
    if hits.len() > 0 && tokens_for(hits[0].content.len()) <= req.token_budget {
        lemma_admit_first(hits, req.token_budget);
    }
    lemma_admit_order(hits, req.token_budget);
    reveal(picks_blocks);
    let st = admit_steps(hits, req.token_budget);
    assert forall|i: int| 0 <= i < st.blocks.len() implies exists|j: int|
        0 <= j < hits.len() && (#[trigger] st.blocks[i]) == block_of(hits[j]) by {
        assert(st.blocks[i] == block_of(hits[st.picked[i]]));
    }
}

/// Compiled context never crosses projects: every block carries the layer,
/// content and provenance of a stored record of the asked project.
pub proof fn lemma_compile_in_project(
    v: crate::memory::store::StoreView,
    req: ContextRequest,
    raw: Seq<(HitId, MemoryType)>,
    qvec: Seq<u32>,
)
    requires
        crate::memory::store::store_wf(v),
    ensures
        forall|i: int|
            0 <= i < compile_spec(v, req, raw, qvec).blocks.len() ==> exists|id: HitId|
                crate::memory::store::hit_exists(v, id) && crate::memory::store::hit_project(v, id) == req.project
                    && (#[trigger] compile_spec(v, req, raw, qvec).blocks[i]).text == crate::memory::store::hit_row(
                    v,
                    id,
                ).content && compile_spec(v, req, raw, qvec).blocks[i].kind == crate::memory::store::hit_row(v, id).kind
                    && compile_spec(v, req, raw, qvec).blocks[i].provenance == crate::memory::store::hit_row(
                    v,
                    id,
                ).provenance,
{
    let hits = recall_spec(v, req.project, compile_pool(req.token_budget), None, raw, qvec);
    crate::memory::recall::lemma_recall_laws(v, req.project, compile_pool(req.token_budget), None, raw, qvec);
    lemma_admit_order(hits, req.token_budget);
    reveal(picks_blocks);
    let blocks = compile_spec(v, req, raw, qvec).blocks;
    assert forall|i: int| 0 <= i < blocks.len() implies exists|id: HitId|
        crate::memory::store::hit_exists(v, id) && crate::memory::store::hit_project(v, id) == req.project
            && (#[trigger] blocks[i]).text == crate::memory::store::hit_row(v, id).content
            && blocks[i].kind == crate::memory::store::hit_row(v, id).kind
            && blocks[i].provenance == crate::memory::store::hit_row(v, id).provenance by {
        let j = admit_steps(hits, req.token_budget).picked[i];
        assert(blocks[i] == block_of(hits[j]));
        let h = hits[j];
        assert(crate::memory::store::hit_exists(v, h.id));
    }
}

/// Whether `seen` holds a text equal to `text`.
fn seen_contains(seen: &Vec<String>, text: &String) -> (r: bool)
    ensures
        r == seen@.map_values(|s: String| s@).contains(text@),
{
    let ghost sv = seen@.map_values(|s: String| s@);
    let mut k: usize = 0;
    while k < seen.len()
        invariant
            k <= seen@.len(),
            sv == seen@.map_values(|s: String| s@),
            forall|j: int| 0 <= j < k ==> sv[j] != text@,
        decreases seen@.len() - k,
    {
        if seen[k] == *text {
            assert(sv[k as int] == text@);
            return true;
        }
        k = k + 1;
    }
    false
}

/// The values of `hits`.
pub open spec fn hit_views(hits: Seq<MemoryHit>) -> Seq<MemoryHitView> {
    hits.map_values(|h: MemoryHit| h@)
}

/// Admits `hits`, in order, into a context of at most `budget` tokens,
/// stopping at the first block that would go over it.
pub fn admit_hits(hits: &Vec<MemoryHit>, budget: usize) -> (r: CompiledContext)
    ensures
        r.blocks@.map_values(|b: ContextBlock| b@) == admit_steps(hits@.map_values(|h: MemoryHit| h@), budget).blocks,
        r.total_tokens == admit_steps(hits@.map_values(|h: MemoryHit| h@), budget).total,
        r.omitted == admit_steps(hits@.map_values(|h: MemoryHit| h@), budget).omitted,
        r.total_tokens <= budget,
        forall|i: int|
            0 <= i < r.blocks@.len() ==> (#[trigger] r.blocks@[i])@ == block_of(
                hits@[admit_steps(hit_views(hits@), budget).picked[i]]@,
            ),
        forall|i: int, j: int|
            0 <= i < j < r.blocks@.len() ==> #[trigger] admit_steps(hit_views(hits@), budget).picked[i]
                < #[trigger] admit_steps(hit_views(hits@), budget).picked[j],
{
    let ghost hv = hits@.map_values(|h: MemoryHit| h@);
    let mut blocks: Vec<ContextBlock> = Vec::new();
    let mut seen: Vec<String> = Vec::new();
    let mut total: usize = 0;
    let mut omitted: usize = 0;
    let mut stopped: bool = false;
    let mut i: usize = 0;
    while i < hits.len()
        invariant
            i <= hits@.len(),
            hv == hits@.map_values(|h: MemoryHit| h@),
            blocks@.map_values(|b: ContextBlock| b@) == admit_steps(hv.take(i as int), budget).blocks,
            total == admit_steps(hv.take(i as int), budget).total,
            omitted == admit_steps(hv.take(i as int), budget).omitted,
            seen@.map_values(|s: String| s@) == admit_steps(hv.take(i as int), budget).seen,
            stopped == admit_steps(hv.take(i as int), budget).stop is Some,
            total <= budget,
            blocks@.len() + omitted == i,
        decreases hits@.len() - i,
    {
        proof {
            lemma_admit_invariants(hv.take(i as int), budget);
        }
        assert(hv.take(i + 1).drop_last() =~= hv.take(i as int));
        assert(hv.take(i + 1).last() == hits@[i as int]@);
        let h = &hits[i];
        if stopped || seen_contains(&seen, &h.content) {
            omitted = omitted + 1;
        } else {
            let t = estimate_tokens(h.content.as_str());
            if t > budget - total {
                omitted = omitted + 1;
                stopped = true;
            } else {
                let ghost prev_seen = seen@;
                seen.push(h.content.clone());
                assert(seen@.map_values(|s: String| s@) =~= prev_seen.map_values(|s: String| s@).push(h.content@));
                total = total + t;
                let b = ContextBlock { kind: h.kind, text: h.content.clone(), provenance: h.provenance.duplicate(), tokens: t };
                let ghost prev = blocks@;
                blocks.push(b);
                assert(blocks@.map_values(|b: ContextBlock| b@) =~= prev.map_values(|b: ContextBlock| b@).push(b@));
            }
        }
        i = i + 1;
    }
    assert(hv.take(i as int) =~= hv);
    proof {
        lemma_admit_order(hv, budget);
        reveal(picks_blocks);
        assert(hv == hit_views(hits@));
        let st = admit_steps(hv, budget);
        assert forall|k: int| 0 <= k < blocks@.len() implies (#[trigger] blocks@[k])@ == block_of(
            hits@[st.picked[k]]@,
        ) by {
            assert(blocks@.map_values(|b: ContextBlock| b@)[k] == blocks@[k]@);
            assert(hv[st.picked[k]] == hits@[st.picked[k]]@);
        }
    }
    CompiledContext { blocks, total_tokens: total, omitted }
}

/// How many candidates the compiler asks recall for: four per 32 tokens of
/// budget, at least `MIN_POOL`.
pub open spec fn compile_pool(budget: usize) -> usize {
    if budget as int * 4 / 32 < MIN_POOL { MIN_POOL } else { (budget as int * 4 / 32) as usize }
}

/// What the compiler returns for `req` given the full-text candidates `raw`.
pub open spec fn compile_spec(
    v: crate::memory::store::StoreView,
    req: ContextRequest,
    raw: Seq<(HitId, MemoryType)>,
    qvec: Seq<u32>,
) -> CompileState {
    admit_steps(
        recall_spec(v, req.project, compile_pool(req.token_budget), None, raw, qvec),
        req.token_budget,
    )
}

/// The full-text candidates the compiler's recall reads from an index built
/// by `history`.
pub open spec fn compile_raw(history: Seq<(Seq<char>, Seq<Seq<char>>)>, req: ContextRequest) -> Option<
    Seq<(HitId, MemoryType)>,
> {
    crate::memory::store::fts_hits(history, req.project, req.task@, route_pool(compile_pool(req.token_budget)))
}

/// Compiles the context for `req`: a zero budget yields an empty context;
/// otherwise recall pulls `compile_pool(budget)` candidates of the project and
/// they are admitted greedily in score order, dropping duplicate content and
/// stopping at the first block that would overflow the budget.
pub fn compile<E: Embedder>(store: &SqliteStore, embedder: &E, req: ContextRequest) -> (r: Result<
    CompiledContext,
    BluesError,
>)
    requires
        store.wf(),
    ensures
        req.token_budget == 0 ==> r is Ok && r->Ok_0.blocks@.len() == 0 && r->Ok_0.total_tokens == 0
            && r->Ok_0.omitted == 0,
        r matches Ok(c) ==> c.total_tokens <= req.token_budget,
        r matches Ok(c) ==> req.token_budget > 0 ==> compile_raw(store.index_history(), req) is Some,
        r matches Ok(c) ==> req.token_budget > 0 ==> c.blocks@.map_values(|b: ContextBlock| b@) == compile_spec(
            store@,
            req,
            compile_raw(store.index_history(), req)->Some_0,
            embedder.spec_embed(req.task@),
        ).blocks,
        r matches Ok(c) ==> req.token_budget > 0 ==> c.total_tokens == compile_spec(
            store@,
            req,
            compile_raw(store.index_history(), req)->Some_0,
            embedder.spec_embed(req.task@),
        ).total,
        r matches Ok(c) ==> req.token_budget > 0 ==> c.omitted == compile_spec(
            store@,
            req,
            compile_raw(store.index_history(), req)->Some_0,
            embedder.spec_embed(req.task@),
        ).omitted,
        req.token_budget > 0 && compile_raw(store.index_history(), req) is None ==> r is Err,
        (crate::text::is_blank_text(req.task@) || crate::text::tokens(req.task@).len() == 0)
            && embedder.infallible() ==> r is Ok,
        r is Err && embedder.infallible() ==> r->Err_0 is Internal,
{
    if req.token_budget == 0 {
        return Ok(CompiledContext { blocks: Vec::new(), total_tokens: 0, omitted: 0 });
    }
    let eighth = req.token_budget / 8;
    assert(req.token_budget as int * 4 / 32 == eighth) by {
        assert(req.token_budget as int * 4 / 32 == req.token_budget as int / 8) by (nonlinear_arith);
    }
    let pool_size = if eighth < MIN_POOL { MIN_POOL } else { eighth };
    let q = MemoryQuery { query: req.task.clone(), top_k: pool_size, scope: Scope::Project, kind: None };
    let results = match recall(store, embedder, req.project, q) {
        Ok(r) => r,
        Err(e) => {
            return Err(e);
        },
    };
    let c = admit_hits(&results.items, req.token_budget);
    assert(pool_size == compile_pool(req.token_budget));
    Ok(c)
}

} // verus!
