//! Multi-route recall: full-text BM25 candidates and vector-cosine candidates
//! fused with Reciprocal Rank Fusion, which sidesteps calibrating BM25 scores
//! against cosine similarities.
//!
//! Every comparison is exact: cosine similarities are compared through their
//! squares as fractions of integers, and fused scores as sums of unit fractions.

use vstd::prelude::*;
use crate::base::error::BluesError;
use crate::base::ids::ProjectId;
use crate::base::memory::MemoryType;
use crate::memory::embed::{valid_embedding, Embedder, EMBED_DIM, COUNT_CAP};
use crate::memory::rank::{
    lemma_insert_ranked_at, lemma_rank_stable_contains, lemma_rank_stable_contents,
    lemma_rank_stable_sorted, lemma_rank_stable_sorted_on, product_lt, rank_stable, strict_order, strict_order_on, ranked_by, distinct_keys,
    lemma_filter_distinct_keys, lemma_rank_stable_distinct_keys,
};
use crate::memory::store::{
    confirmed_spec, hit_exists, hit_project, hit_row, store_wf, ConfirmedRow, ConfirmedRowView,
    SqliteStore, StoreView, MAX_CONFIRMED, lemma_distinct_hits_bounded, fts_hits,
};
use crate::memory::types::{FusedScore, HitId, MemoryHit, MemoryHitView, MemoryQuery, MemoryResults};

verus! {

/// Reciprocal-rank-fusion constant: a hit at rank `r` of a route scores `1/(RRF_K + r)`.
pub const RRF_K: usize = 60;

/// Every route returns at least this many candidates so the fusion has room
/// to disagree.
pub const PER_ROUTE_CAP: usize = 64;

/// How many hits a query returns: `top_k`, but at least one.
pub open spec fn hit_limit(top_k: usize) -> usize {
    if top_k < 1 { 1 } else { top_k }
}

/// How many candidates each route contributes.
pub open spec fn route_pool(top_k: usize) -> usize {
    if hit_limit(top_k) < PER_ROUTE_CAP { PER_ROUTE_CAP } else { hit_limit(top_k) }
}

pub open spec fn kind_wanted(want: Option<MemoryType>, k: MemoryType) -> bool {
    want matches Some(w) ==> k == w
}

/// The full-text route: candidates that name a stored record of `project` of
/// the wanted kind, in the order the index ranked them, each once.
pub open spec fn fts_route(
    v: StoreView,
    project: ProjectId,
    kind: Option<MemoryType>,
    raw: Seq<(HitId, MemoryType)>,
) -> Seq<HitId>
    decreases raw.len(),
{
    if raw.len() == 0 {
        Seq::empty()
    } else {
        let prev = fts_route(v, project, kind, raw.drop_last());
        let x = raw.last().0;
        if hit_exists(v, x) && hit_project(v, x) == project && kind_wanted(kind, hit_row(v, x).kind)
            && !prev.contains(x) {
            prev.push(x)
        } else {
            prev
        }
    }
}

/// The position of the first occurrence of `x` in `s`.
pub open spec fn first_index(s: Seq<HitId>, x: HitId) -> Option<nat>
    decreases s.len(),
{
    if s.len() == 0 {
        None
    } else {
        match first_index(s.drop_last(), x) {
            Some(i) => Some(i),
            None => if s.last() == x {
                Some((s.len() - 1) as nat)
            } else {
                None
            },
        }
    }
}

proof fn lemma_first_index_prefix(s: Seq<HitId>, x: HitId, k: int)
    requires
        0 <= k <= s.len(),
        first_index(s.take(k), x) is Some,
    ensures
        first_index(s, x) == first_index(s.take(k), x),
    decreases s.len() - k,
{
    if k < s.len() {
        assert(s.take(k + 1).drop_last() =~= s.take(k));
        lemma_first_index_prefix(s, x, k + 1);
    } else {
        assert(s.take(k) =~= s);
    }
}

proof fn lemma_first_index_absent(s: Seq<HitId>, x: HitId)
    ensures
        first_index(s, x) is None <==> !s.contains(x),
        first_index(s, x) matches Some(i) ==> i < s.len() && s[i as int] == x,
    decreases s.len(),
{
    if s.len() > 0 {
        lemma_first_index_absent(s.drop_last(), x);
        if s.drop_last().contains(x) {
            let j = choose|j: int| 0 <= j < s.drop_last().len() && s.drop_last()[j] == x;
            assert(s[j] == x);
        }
        if s.contains(x) && !s.drop_last().contains(x) {
            let j = choose|j: int| 0 <= j < s.len() && s[j] == x;
            if j < s.len() - 1 {
                assert(s.drop_last()[j] == x);
            }
        }
    }
}

/// The first position of `x` in `s`.
pub fn find_hit(s: &Vec<HitId>, x: HitId) -> (r: Option<usize>)
    ensures
        r matches Some(i) ==> first_index(s@, x) == Some(i as nat),
        r is None ==> first_index(s@, x) is None,
{
    let mut i: usize = 0;
    while i < s.len()
        invariant
            i <= s@.len(),
            first_index(s@.take(i as int), x) is None,
        decreases s@.len() - i,
    {
        assert(s@.take(i + 1).drop_last() =~= s@.take(i as int));
        if s[i] == x {
            assert(s@.take(i + 1).last() == x);
            assert(first_index(s@.take(i + 1), x) == Some(i as nat));
            proof {
                lemma_first_index_prefix(s@, x, i + 1);
            }
            return Some(i);
        }
        assert(s@.take(i + 1).last() != x);
        i = i + 1;
    }
    assert(s@.take(i as int) =~= s@);
    None
}

proof fn lemma_fts_route_props(v: StoreView, project: ProjectId, kind: Option<MemoryType>, raw: Seq<(HitId, MemoryType)>)
    ensures
        fts_route(v, project, kind, raw).no_duplicates(),
        forall|i: int| 0 <= i < fts_route(v, project, kind, raw).len() ==> {
            let x = #[trigger] fts_route(v, project, kind, raw)[i];
            hit_exists(v, x) && hit_project(v, x) == project && kind_wanted(kind, hit_row(v, x).kind)
        },
    decreases raw.len(),
{
    if raw.len() > 0 {
        lemma_fts_route_props(v, project, kind, raw.drop_last());
        let prev = fts_route(v, project, kind, raw.drop_last());
        let cur = fts_route(v, project, kind, raw);
        assert forall|i: int| 0 <= i < cur.len() implies {
            let x = #[trigger] cur[i];
            hit_exists(v, x) && hit_project(v, x) == project && kind_wanted(kind, hit_row(v, x).kind)
        } by {
            if i < prev.len() {
                assert(cur[i] == prev[i]);
            }
        }
        assert forall|i: int, j: int| 0 <= i < cur.len() && 0 <= j < cur.len() && i != j implies cur[i] != cur[j] by {
            if i < prev.len() && j < prev.len() {
                assert(cur[i] == prev[i] && cur[j] == prev[j]);
            } else if i < prev.len() {
                assert(cur[i] == prev[i]);
                assert(prev.contains(cur[i]));
            } else if j < prev.len() {
                assert(cur[j] == prev[j]);
                assert(prev.contains(cur[j]));
            }
        }
    }
}

/// The full-text route as a list of ids.
fn build_fts_route(
    store: &SqliteStore,
    project: ProjectId,
    kind: Option<MemoryType>,
    raw: &Vec<(HitId, MemoryType)>,
) -> (r: Vec<HitId>)
    requires
        store.wf(),
    ensures
        r@ == fts_route(store@, project, kind, raw@),
{
    let mut out: Vec<HitId> = Vec::new();
    let mut i: usize = 0;
    while i < raw.len()
        invariant
            store.wf(),
            i <= raw@.len(),
            out@ == fts_route(store@, project, kind, raw@.take(i as int)),
        decreases raw@.len() - i,
    {
        assert(raw@.take(i + 1).drop_last() =~= raw@.take(i as int));
        assert(raw@.take(i + 1).last() == raw@[i as int]);
        let x = raw[i].0;
        let keep = match store.locate(x) {
            Some((p, k)) => {
                let kind_ok = match kind {
                    Some(w) => k == w,
                    None => true,
                };
                p == project && kind_ok && find_hit(&out, x).is_none()
            },
            None => false,
        };
        proof {
            lemma_first_index_absent(out@, x);
        }
        if keep {
            out.push(x);
        }
        i = i + 1;
    }
    assert(raw@.take(i as int) =~= raw@);
    out
}


/// Every confirmed row a store reads out is the stored record of its id, in
/// the asked project, with a valid embedding.
pub proof fn lemma_confirmed_rows(v: StoreView, project: ProjectId, kind: Option<MemoryType>)
    requires
        store_wf(v),
    ensures
        confirmed_spec(v, project, kind).len() <= v.facts.len() + v.episodes.len(),
        forall|i: int| 0 <= i < confirmed_spec(v, project, kind).len() ==> {
            let r = #[trigger] confirmed_spec(v, project, kind)[i];
            &&& hit_exists(v, r.id)
            &&& hit_project(v, r.id) == project
            &&& hit_row(v, r.id) == r
            &&& kind_wanted(kind, r.kind)
            &&& r.embedding is Some
            &&& valid_embedding(r.embedding.unwrap())
        },
{
    broadcast use vstd::seq_lib::group_filter_ensures;
    let fsel = |e: crate::memory::store::FactEntry| crate::memory::store::fact_selected(e, project, kind);
    let esel = |e: crate::memory::store::EpisodeEntry| crate::memory::store::episode_selected(e, project, kind);
    let ff = v.facts.filter(fsel);
    let ef = v.episodes.filter(esel);
    let fm = ff.map_values(|e: crate::memory::store::FactEntry| crate::memory::store::fact_row(e));
    let em = ef.map_values(|e: crate::memory::store::EpisodeEntry| crate::memory::store::episode_row(e));
    let all = confirmed_spec(v, project, kind);
    assert(all =~= fm + em);
    assert forall|i: int| 0 <= i < all.len() implies {
        let r = #[trigger] all[i];
        &&& hit_exists(v, r.id)
        &&& hit_project(v, r.id) == project
        &&& hit_row(v, r.id) == r
        &&& kind_wanted(kind, r.kind)
        &&& r.embedding is Some
        &&& valid_embedding(r.embedding.unwrap())
    } by {
        if i < fm.len() {
            let f = ff[i];
            assert(fsel(f));
            assert(ff.contains(f));
            v.facts.lemma_filter_contains_rev(fsel, f);
            let j = choose|j: int| 0 <= j < v.facts.len() && v.facts[j] == f;
            assert(crate::memory::store::has_fact(v, f.id));
            let p = crate::memory::store::fact_pos(v, f.id);
            assert(p == j) by {
                if p < j {
                    assert(v.facts[p].id != v.facts[j].id);
                } else if p > j {
                    assert(v.facts[j].id != v.facts[p].id);
                }
            }
            assert(all[i] == fm[i]);
        } else {
            let k = i - fm.len();
            let e = ef[k];
            assert(esel(e));
            assert(ef.contains(e));
            v.episodes.lemma_filter_contains_rev(esel, e);
            let j = choose|j: int| 0 <= j < v.episodes.len() && v.episodes[j] == e;
            assert(crate::memory::store::has_episode(v, e.id));
            let p = crate::memory::store::episode_pos(v, e.id);
            assert(p == j) by {
                if p < j {
                    assert(v.episodes[p].id != v.episodes[j].id);
                } else if p > j {
                    assert(v.episodes[j].id != v.episodes[p].id);
                }
            }
            assert(all[i] == em[k]);
        }
    }
}

// ── the vector route ──────────────────────────────────────────────────────

/// `sum(q[i] * e[i] for i < k)`.
pub open spec fn dot_upto(q: Seq<u32>, e: Seq<u32>, k: nat) -> int
    decreases k,
{
    if k == 0 {
        0
    } else {
        dot_upto(q, e, (k - 1) as nat) + q[k - 1] as int * e[k - 1] as int
    }
}

/// `sum(e[i] * e[i] for i < k)`.
pub open spec fn sq_upto(e: Seq<u32>, k: nat) -> int
    decreases k,
{
    if k == 0 {
        0
    } else {
        sq_upto(e, (k - 1) as nat) + e[k - 1] as int * e[k - 1] as int
    }
}

/// The numerator of the squared cosine of `e` against the query `q`, up to
/// the query's own norm (the same for every candidate); 0 for a zero vector.
pub open spec fn cos_key_num(q: Seq<u32>, e: Seq<u32>) -> int {
    if sq_upto(e, EMBED_DIM as nat) == 0 {
        0
    } else {
        dot_upto(q, e, EMBED_DIM as nat) * dot_upto(q, e, EMBED_DIM as nat)
    }
}

/// The denominator that goes with `cos_key_num`: the squared norm of `e`.
pub open spec fn cos_key_den(e: Seq<u32>) -> int {
    if sq_upto(e, EMBED_DIM as nat) == 0 {
        1
    } else {
        sq_upto(e, EMBED_DIM as nat)
    }
}

/// A vector-route candidate with the fraction its cosine is ranked by.
#[derive(Debug, Clone, Copy)]
pub struct VecCand {
    pub id: HitId,
    pub kind: MemoryType,
    pub num: u128,
    pub den: u64,
}

pub open spec fn vec_cand(r: ConfirmedRowView, q: Seq<u32>) -> VecCand {
    VecCand {
        id: r.id,
        kind: r.kind,
        num: cos_key_num(q, r.embedding.unwrap()) as u128,
        den: cos_key_den(r.embedding.unwrap()) as u64,
    }
}

/// `a` ranks before `b` when its cosine with the query is strictly larger.
pub open spec fn vec_before() -> spec_fn(VecCand, VecCand) -> bool {
    |a: VecCand, b: VecCand| (b.num as int) * (a.den as int) < (a.num as int) * (b.den as int)
}

/// The vector route: the asked project's confirmed records of the wanted kind
/// ranked by cosine with `qvec`, most similar first (ties keep store order),
/// the first `pool` of them.
pub open spec fn vec_route(
    v: StoreView,
    project: ProjectId,
    kind: Option<MemoryType>,
    qvec: Seq<u32>,
    pool: usize,
) -> Seq<VecCand> {
    let ranked = rank_stable(
        confirmed_spec(v, project, kind).map_values(|r: ConfirmedRowView| vec_cand(r, qvec)),
        vec_before(),
    );
    if pool < ranked.len() {
        ranked.take(pool as int)
    } else {
        ranked
    }
}

proof fn lemma_bounded_products(a: u32, b: u32)
    requires
        a <= COUNT_CAP,
        b <= COUNT_CAP,
    ensures
        0 <= a as int * b as int <= 0x1_0000_0000_0000,
{
    assert(0 <= a as int * b as int <= 0x1_0000_0000_0000) by (nonlinear_arith)
        requires
            a <= 16_777_216,
            b <= 16_777_216,
    ;
}

/// The ranking fraction of `e` against the query `q`.
fn cos_key(q: &Vec<u32>, e: &Vec<u32>) -> (r: (u128, u64))
    requires
        valid_embedding(q@),
        valid_embedding(e@),
    ensures
        r.0 as int == cos_key_num(q@, e@),
        r.1 as int == cos_key_den(e@),
{
    let mut dot: u64 = 0;
    let mut sq: u64 = 0;
    let mut i: usize = 0;
    while i < EMBED_DIM
        invariant
            valid_embedding(q@),
            valid_embedding(e@),
            i <= EMBED_DIM,
            dot as int == dot_upto(q@, e@, i as nat),
            sq as int == sq_upto(e@, i as nat),
            dot <= i * 0x1_0000_0000_0000,
            sq <= i * 0x1_0000_0000_0000,
        decreases EMBED_DIM - i,
    {
        proof {
            lemma_bounded_products(q@[i as int], e@[i as int]);
            lemma_bounded_products(e@[i as int], e@[i as int]);
        }
        dot = dot + (q[i] as u64) * (e[i] as u64);
        sq = sq + (e[i] as u64) * (e[i] as u64);
        i = i + 1;
    }
    if sq == 0 {
        (0, 1)
    } else {
        assert((dot as int) * (dot as int) <= 0x80_0000_0000_0000 * 0x80_0000_0000_0000) by (nonlinear_arith)
            requires
                0 <= dot <= 0x80_0000_0000_0000,
        ;
        ((dot as u128) * (dot as u128), sq)
    }
}

fn vec_ranks_before(a: &VecCand, b: &VecCand) -> (r: bool)
    ensures
        r == vec_before()(*a, *b),
{
    product_lt(b.num, a.den, a.num, b.den)
}

/// `cands` in the order a stable sort by cosine (largest first) gives them.
fn rank_vec_cands(cands: &Vec<VecCand>) -> (r: Vec<VecCand>)
    ensures
        r@ == rank_stable(cands@, vec_before()),
{
    let mut out: Vec<VecCand> = Vec::new();
    let mut i: usize = 0;
    while i < cands.len()
        invariant
            i <= cands@.len(),
            out@ == rank_stable(cands@.take(i as int), vec_before()),
        decreases cands@.len() - i,
    {
        let x = cands[i];
        let mut p: usize = 0;
        while p < out.len() && !vec_ranks_before(&x, &out[p])
            invariant
                p <= out@.len(),
                forall|j: int| 0 <= j < p ==> !vec_before()(x, #[trigger] out@[j]),
            decreases out@.len() - p,
        {
            p = p + 1;
        }
        proof {
            lemma_insert_ranked_at(out@, x, vec_before(), p as int);
            assert(cands@.take(i + 1).drop_last() =~= cands@.take(i as int));
            assert(cands@.take(i + 1).last() == x);
        }
        let ghost prev = out@;
        out.insert(p, x);
        assert(out@ =~= prev.take(p as int).push(x) + prev.skip(p as int));
        i = i + 1;
    }
    assert(cands@.take(i as int) =~= cands@);
    out
}


/// Every vector-route candidate names a stored record of the project, and the
/// route is no longer than the store.
proof fn lemma_vec_route_props(v: StoreView, project: ProjectId, kind: Option<MemoryType>, qvec: Seq<u32>, pool: usize)
    requires
        store_wf(v),
    ensures
        vec_route(v, project, kind, qvec, pool).len() <= MAX_CONFIRMED,
        forall|i: int| 0 <= i < vec_route(v, project, kind, qvec, pool).len() ==> {
            let c = #[trigger] vec_route(v, project, kind, qvec, pool)[i];
            hit_exists(v, c.id) && hit_project(v, c.id) == project && hit_row(v, c.id).kind == c.kind
                && kind_wanted(kind, c.kind)
        },
{
    lemma_confirmed_rows(v, project, kind);
    let rows = confirmed_spec(v, project, kind);
    let mapped = rows.map_values(|r: ConfirmedRowView| vec_cand(r, qvec));
    let ranked = rank_stable(mapped, vec_before());
    lemma_rank_stable_contents(mapped, vec_before());
    let route = vec_route(v, project, kind, qvec, pool);
    assert forall|i: int| 0 <= i < route.len() implies {
        let c = #[trigger] route[i];
        hit_exists(v, c.id) && hit_project(v, c.id) == project && hit_row(v, c.id).kind == c.kind
            && kind_wanted(kind, c.kind)
    } by {
        let c = route[i];
        assert(c == ranked[i]);
        assert(ranked.contains(c));
        lemma_rank_stable_contains(mapped, vec_before(), c);
        let j = choose|j: int| 0 <= j < mapped.len() && mapped[j] == c;
        assert(mapped[j] == vec_cand(rows[j], qvec));
        assert(rows[j].id == c.id);
    }
}

proof fn lemma_dot_sq_bounds(q: Seq<u32>, e: Seq<u32>, k: nat)
    requires
        valid_embedding(q),
        valid_embedding(e),
        k <= EMBED_DIM,
    ensures
        0 <= dot_upto(q, e, k) <= k * 0x1_0000_0000_0000,
        0 <= sq_upto(e, k) <= k * 0x1_0000_0000_0000,
    decreases k,
{
    if k > 0 {
        lemma_dot_sq_bounds(q, e, (k - 1) as nat);
        lemma_bounded_products(q[k - 1], e[k - 1]);
        lemma_bounded_products(e[k - 1], e[k - 1]);
    }
}

/// The ranking key of a valid embedding fits the candidate's fields exactly.
proof fn lemma_vec_cand_exact(r: ConfirmedRowView, q: Seq<u32>)
    requires
        valid_embedding(q),
        r.embedding is Some,
        valid_embedding(r.embedding.unwrap()),
    ensures
        vec_cand(r, q).num as int == cos_key_num(q, r.embedding.unwrap()),
        vec_cand(r, q).den as int == cos_key_den(r.embedding.unwrap()),
        vec_cand(r, q).den > 0,
{
    let e = r.embedding.unwrap();
    lemma_dot_sq_bounds(q, e, EMBED_DIM as nat);
    let d = dot_upto(q, e, EMBED_DIM as nat);
    assert(d * d <= 0x80_0000_0000_0000 * 0x80_0000_0000_0000) by (nonlinear_arith)
        requires
            0 <= d <= 0x80_0000_0000_0000,
    ;
    assert(0 <= d * d) by (nonlinear_arith)
        requires
            0 <= d,
    ;
}

proof fn lemma_vec_before_strict_on()
    ensures
        strict_order_on(|c: VecCand| c.den > 0, vec_before()),
{
    let bf = vec_before();
    let ok = |c: VecCand| c.den > 0;
    assert forall|a: VecCand, b: VecCand, c: VecCand|
        ok(a) && ok(b) && ok(c) && #[trigger] bf(a, b) && #[trigger] bf(b, c) implies bf(a, c) by {
        let (na, da) = (a.num as int, a.den as int);
        let (nb, db) = (b.num as int, b.den as int);
        let (nc, dc) = (c.num as int, c.den as int);
        assert(nc * da < na * dc) by (nonlinear_arith)
            requires
                nb * da < na * db,
                nc * db < nb * dc,
                da > 0,
                db > 0,
                dc > 0,
        ;
    }
    assert forall|a: VecCand, b: VecCand| ok(a) && ok(b) && #[trigger] bf(a, b) implies !bf(b, a) by {}
}

/// The vector route ranks by cosine with the query: for route candidates `e`
/// before `f` (their stored embeddings), `cos(q, f) <= cos(q, e)`, written
/// without roots or division as `dot(q,f)^2 * |e|^2 <= dot(q,e)^2 * |f|^2`.
/// Scaling an embedding by a positive factor leaves both sides' order as it
/// was, so the rank does not depend on an embedding's length.
pub proof fn lemma_vec_route_by_cosine(
    v: StoreView,
    project: ProjectId,
    kind: Option<MemoryType>,
    qvec: Seq<u32>,
    pool: usize,
)
    requires
        store_wf(v),
        valid_embedding(qvec),
    ensures
        forall|i: int, j: int|
            0 <= i < j < vec_route(v, project, kind, qvec, pool).len() ==> {
                let e = hit_row(v, (#[trigger] vec_route(v, project, kind, qvec, pool)[i]).id).embedding.unwrap();
                let f = hit_row(v, (#[trigger] vec_route(v, project, kind, qvec, pool)[j]).id).embedding.unwrap();
                dot_upto(qvec, f, EMBED_DIM as nat) * dot_upto(qvec, f, EMBED_DIM as nat) * sq_upto(e, EMBED_DIM as nat)
                    <= dot_upto(qvec, e, EMBED_DIM as nat) * dot_upto(qvec, e, EMBED_DIM as nat) * sq_upto(
                    f,
                    EMBED_DIM as nat,
                )
            },
{
    lemma_confirmed_rows(v, project, kind);
    let rows = confirmed_spec(v, project, kind);
    let mapped = rows.map_values(|r: ConfirmedRowView| vec_cand(r, qvec));
    let ok = |c: VecCand| c.den > 0;
    // every candidate carries the exact key of a stored, valid embedding
    assert forall|a: int| 0 <= a < mapped.len() implies ok(#[trigger] mapped[a]) && {
        let e = hit_row(v, mapped[a].id).embedding.unwrap();
        &&& mapped[a].num as int == cos_key_num(qvec, e)
        &&& mapped[a].den as int == cos_key_den(e)
        &&& valid_embedding(e)
    } by {
        let r = rows[a];
        assert(mapped[a] == vec_cand(r, qvec));
        lemma_vec_cand_exact(r, qvec);
    }
    lemma_vec_before_strict_on();
    lemma_rank_stable_sorted_on(mapped, vec_before(), ok);
    lemma_rank_stable_contents(mapped, vec_before());
    let ranked = rank_stable(mapped, vec_before());
    let route = vec_route(v, project, kind, qvec, pool);
    assert forall|i: int, j: int| 0 <= i < j < route.len() implies {
        let e = hit_row(v, (#[trigger] route[i]).id).embedding.unwrap();
        let f = hit_row(v, (#[trigger] route[j]).id).embedding.unwrap();
        dot_upto(qvec, f, EMBED_DIM as nat) * dot_upto(qvec, f, EMBED_DIM as nat) * sq_upto(e, EMBED_DIM as nat)
            <= dot_upto(qvec, e, EMBED_DIM as nat) * dot_upto(qvec, e, EMBED_DIM as nat) * sq_upto(f, EMBED_DIM as nat)
    } by {
        let ci = route[i];
        let cj = route[j];
        assert(ci == ranked[i] && cj == ranked[j]);
        assert(!vec_before()(ranked[j], ranked[i]));
        assert(ranked.contains(ci) && ranked.contains(cj));
        lemma_rank_stable_contains(mapped, vec_before(), ci);
        lemma_rank_stable_contains(mapped, vec_before(), cj);
        let a = choose|a: int| 0 <= a < mapped.len() && mapped[a] == ci;
        let b = choose|b: int| 0 <= b < mapped.len() && mapped[b] == cj;
        let e = hit_row(v, ci.id).embedding.unwrap();
        let f = hit_row(v, cj.id).embedding.unwrap();
        lemma_dot_sq_bounds(qvec, e, EMBED_DIM as nat);
        lemma_dot_sq_bounds(qvec, f, EMBED_DIM as nat);
        let de = dot_upto(qvec, e, EMBED_DIM as nat);
        let df = dot_upto(qvec, f, EMBED_DIM as nat);
        let se = sq_upto(e, EMBED_DIM as nat);
        let sf = sq_upto(f, EMBED_DIM as nat);
        assert(cj.num as int * ci.den as int <= ci.num as int * cj.den as int);
        if se == 0 {
            assert(0 <= df * df) by (nonlinear_arith);
            assert(df * df * se == 0) by (nonlinear_arith)
                requires
                    se == 0,
            ;
            assert(0 <= de * de * sf) by (nonlinear_arith)
                requires
                    0 <= sf,
            ;
        } else if sf == 0 {
            assert(df == 0) by {
                lemma_dot_zero_when_sq_zero(qvec, f, EMBED_DIM as nat);
            }
            assert(df * df * se == 0) by (nonlinear_arith)
                requires
                    df == 0,
            ;
            assert(0 <= de * de * sf) by (nonlinear_arith)
                requires
                    0 <= sf,
            ;
        } else {
            assert(ci.num as int == de * de && ci.den as int == se);
            assert(cj.num as int == df * df && cj.den as int == sf);
        }
    }
}

/// A zero embedding has a zero dot product with every query.
proof fn lemma_dot_zero_when_sq_zero(q: Seq<u32>, e: Seq<u32>, k: nat)
    requires
        valid_embedding(q),
        valid_embedding(e),
        k <= EMBED_DIM,
        sq_upto(e, k) == 0,
    ensures
        dot_upto(q, e, k) == 0,
    decreases k,
{
    if k > 0 {
        lemma_dot_sq_bounds(q, e, (k - 1) as nat);
        let x = e[k - 1] as int;
        assert(x * x >= 0) by (nonlinear_arith);
        assert(sq_upto(e, (k - 1) as nat) == 0 && x * x == 0);
        assert(x == 0) by (nonlinear_arith)
            requires
                x * x == 0,
        ;
        lemma_dot_zero_when_sq_zero(q, e, (k - 1) as nat);
        assert(q[k - 1] as int * x == 0) by (nonlinear_arith)
            requires
                x == 0,
        ;
    }
}

fn build_vec_route(
    store: &SqliteStore,
    project: ProjectId,
    kind: Option<MemoryType>,
    qvec: &Vec<u32>,
    pool: usize,
) -> (r: Vec<VecCand>)
    requires
        store.wf(),
        valid_embedding(qvec@),
    ensures
        r@ == vec_route(store@, project, kind, qvec@, pool),
{
    let rows = match store.confirmed_all(project, kind) {
        Ok(rows) => rows,
        Err(_) => Vec::new(),
    };
    let ghost rv = confirmed_spec(store@, project, kind);
    proof {
        lemma_confirmed_rows(store@, project, kind);
    }
    assert(rows@.map_values(|x: ConfirmedRow| x@) == rv);
    let mut cands: Vec<VecCand> = Vec::new();
    let mut i: usize = 0;
    while i < rows.len()
        invariant
            store.wf(),
            valid_embedding(qvec@),
            i <= rows@.len(),
            rows@.map_values(|x: ConfirmedRow| x@) == rv,
            rv == confirmed_spec(store@, project, kind),
            forall|k: int| 0 <= k < rv.len() ==> {
                let r = #[trigger] rv[k];
                r.embedding is Some && valid_embedding(r.embedding.unwrap())
            },
            cands@ == rv.take(i as int).map_values(|r: ConfirmedRowView| vec_cand(r, qvec@)),
        decreases rows@.len() - i,
    {
        assert(rows@[i as int]@ == rv[i as int]);
        let row = &rows[i];
        let c = match &row.embedding {
            Some(e) => {
                let (num, den) = cos_key(qvec, e);
                VecCand { id: row.id, kind: row.kind, num, den }
            },
            None => {
                assert(false);
                VecCand { id: row.id, kind: row.kind, num: 0, den: 1 }
            },
        };
        let ghost prev = cands@;
        cands.push(c);
        assert(rv.take(i + 1) =~= rv.take(i as int).push(rv[i as int]));
        assert(cands@ =~= rv.take(i + 1).map_values(|r: ConfirmedRowView| vec_cand(r, qvec@)));
        i = i + 1;
    }
    assert(rv.take(i as int) =~= rv);
    let mut ranked = rank_vec_cands(&cands);
    if pool < ranked.len() {
        ranked.truncate(pool);
    }
    ranked
}

// ── fusion ────────────────────────────────────────────────────────────────

/// A fused candidate: its id, layer and the ranks it got from each route.
#[derive(Debug, Clone, Copy)]
pub struct FusedCand {
    pub id: HitId,
    pub kind: MemoryType,
    pub score: FusedScore,
}

pub open spec fn rank_of(s: Seq<HitId>, x: HitId) -> Option<usize> {
    match first_index(s, x) {
        Some(i) => Some(i as usize),
        None => None,
    }
}

/// Fusion order before ranking: the full-text candidates, then the vector
/// candidates the full-text route did not return.
pub open spec fn fused_ids(fts: Seq<HitId>, vec: Seq<HitId>) -> Seq<HitId> {
    fts + vec.filter(|x: HitId| !fts.contains(x))
}

pub open spec fn fused_cand(v: StoreView, fts: Seq<HitId>, vec: Seq<HitId>, x: HitId) -> FusedCand {
    FusedCand {
        id: x,
        kind: hit_row(v, x).kind,
        score: FusedScore { fts_rank: rank_of(fts, x), vec_rank: rank_of(vec, x) },
    }
}

/// Numerator of the fused score `1/(60 + a) + 1/(60 + b)` over its denominator.
pub open spec fn rrf_num(s: FusedScore) -> int {
    match (s.fts_rank, s.vec_rank) {
        (Some(a), Some(b)) => 2 * RRF_K + a + b,
        (Some(_), None) => 1,
        (None, Some(_)) => 1,
        (None, None) => 0,
    }
}

/// Denominator of the fused score.
pub open spec fn rrf_den(s: FusedScore) -> int {
    match (s.fts_rank, s.vec_rank) {
        (Some(a), Some(b)) => (RRF_K + a) * (RRF_K + b),
        (Some(a), None) => RRF_K + a,
        (None, Some(b)) => RRF_K + b,
        (None, None) => 1,
    }
}

/// `a` ranks before `b` when its fused score is strictly larger.
pub open spec fn rrf_before() -> spec_fn(FusedCand, FusedCand) -> bool {
    |a: FusedCand, b: FusedCand| rrf_num(b.score) * rrf_den(a.score) < rrf_num(a.score) * rrf_den(b.score)
}

/// The fused candidates ranked by score, highest first (ties keep fusion
/// order), the first `limit` of them.
pub open spec fn fused_ranking(v: StoreView, fts: Seq<HitId>, vec: Seq<HitId>, limit: usize) -> Seq<FusedCand> {
    let ranked = rank_stable(
        fused_ids(fts, vec).map_values(|x: HitId| fused_cand(v, fts, vec, x)),
        rrf_before(),
    );
    if limit < ranked.len() {
        ranked.take(limit as int)
    } else {
        ranked
    }
}

/// The hit recall returns for a ranked candidate: the stored record's content
/// and provenance with the candidate's fused score.
pub open spec fn hit_of(v: StoreView, c: FusedCand) -> MemoryHitView {
    MemoryHitView {
        score: c.score,
        kind: hit_row(v, c.id).kind,
        content: hit_row(v, c.id).content,
        provenance: hit_row(v, c.id).provenance,
        id: c.id,
    }
}

/// What recall returns for a query of `project` (`top_k`, `kind`), given the
/// full-text index's candidates `raw` and the query embedding `qvec`.
pub open spec fn recall_spec(
    v: StoreView,
    project: ProjectId,
    top_k: usize,
    kind: Option<MemoryType>,
    raw: Seq<(HitId, MemoryType)>,
    qvec: Seq<u32>,
) -> Seq<MemoryHitView> {
    let fts = fts_route(v, project, kind, raw);
    let vec = vec_route(v, project, kind, qvec, route_pool(top_k)).map_values(|c: VecCand| c.id);
    fused_ranking(v, fts, vec, hit_limit(top_k)).map_values(|c: FusedCand| hit_of(v, c))
}

/// No two confirmed rows a store reads out share an id.
proof fn lemma_confirmed_distinct(v: StoreView, project: ProjectId, kind: Option<MemoryType>)
    requires
        store_wf(v),
    ensures
        distinct_keys(confirmed_spec(v, project, kind), |r: ConfirmedRowView| r.id),
{
    let fsel = |e: crate::memory::store::FactEntry| crate::memory::store::fact_selected(e, project, kind);
    let esel = |e: crate::memory::store::EpisodeEntry| crate::memory::store::episode_selected(e, project, kind);
    let fkey = |e: crate::memory::store::FactEntry| e.id;
    let ekey = |e: crate::memory::store::EpisodeEntry| e.id;
    assert(distinct_keys(v.facts, fkey));
    assert(distinct_keys(v.episodes, ekey));
    lemma_filter_distinct_keys(v.facts, fsel, fkey);
    lemma_filter_distinct_keys(v.episodes, esel, ekey);
    let ff = v.facts.filter(fsel);
    let ef = v.episodes.filter(esel);
    let fm = ff.map_values(|e: crate::memory::store::FactEntry| crate::memory::store::fact_row(e));
    let em = ef.map_values(|e: crate::memory::store::EpisodeEntry| crate::memory::store::episode_row(e));
    let all = confirmed_spec(v, project, kind);
    assert(all =~= fm + em);
    assert forall|i: int, j: int| 0 <= i < j < all.len() implies (#[trigger] all[i]).id != (#[trigger] all[j]).id by {
        if j < fm.len() {
            assert(all[i] == fm[i] && all[j] == fm[j]);
            assert(fkey(ff[i]) != fkey(ff[j]));
        } else if i >= fm.len() {
            let a = i - fm.len();
            let b = j - fm.len();
            assert(all[i] == em[a] && all[j] == em[b]);
            assert(ekey(ef[a]) != ekey(ef[b]));
        } else {
            assert(all[i] == fm[i]);
            assert(all[j] == em[j - fm.len()]);
        }
    }
}

/// Fused score `a` is at least fused score `b`.
pub open spec fn score_at_least(a: FusedScore, b: FusedScore) -> bool {
    rrf_num(b) * rrf_den(a) <= rrf_num(a) * rrf_den(b)
}

proof fn lemma_rrf_den_positive(s: FusedScore)
    ensures
        rrf_den(s) > 0,
{
    match (s.fts_rank, s.vec_rank) {
        (Some(a), Some(b)) => {
            assert((RRF_K + a) * (RRF_K + b) > 0) by (nonlinear_arith)
                requires
                    RRF_K + a > 0,
                    RRF_K + b > 0,
            ;
        },
        _ => {},
    }
}

proof fn lemma_rrf_before_strict()
    ensures
        strict_order(rrf_before()),
{
    let bf = rrf_before();
    assert forall|a: FusedCand, b: FusedCand, c: FusedCand| #[trigger] bf(a, b) && #[trigger] bf(b, c) implies bf(a, c) by {
        lemma_rrf_den_positive(a.score);
        lemma_rrf_den_positive(b.score);
        lemma_rrf_den_positive(c.score);
        let (na, da) = (rrf_num(a.score), rrf_den(a.score));
        let (nb, db) = (rrf_num(b.score), rrf_den(b.score));
        let (nc, dc) = (rrf_num(c.score), rrf_den(c.score));
        assert(nc * da < na * dc) by (nonlinear_arith)
            requires
                nb * da < na * db,
                nc * db < nb * dc,
                da > 0,
                db > 0,
                dc > 0,
        ;
    }
    assert forall|a: FusedCand, b: FusedCand| #[trigger] bf(a, b) implies !bf(b, a) by {}
}

/// What recall promises of its hits: at most `hit_limit(top_k)` of them, each
/// a stored record of the asked project and of the asked layer (when one is
/// asked), in order of fused score, highest first.
pub proof fn lemma_recall_laws(
    v: StoreView,
    project: ProjectId,
    top_k: usize,
    kind: Option<MemoryType>,
    raw: Seq<(HitId, MemoryType)>,
    qvec: Seq<u32>,
)
    requires
        store_wf(v),
    ensures
        recall_spec(v, project, top_k, kind, raw, qvec).len() <= hit_limit(top_k),
        forall|i: int| 0 <= i < recall_spec(v, project, top_k, kind, raw, qvec).len() ==> {
            let h = #[trigger] recall_spec(v, project, top_k, kind, raw, qvec)[i];
            &&& hit_exists(v, h.id)
            &&& hit_project(v, h.id) == project
            &&& kind_wanted(kind, h.kind)
            &&& h.kind == hit_row(v, h.id).kind
            &&& h.content == hit_row(v, h.id).content
            &&& h.provenance == hit_row(v, h.id).provenance
        },
        forall|i: int, j: int| 0 <= i < j < recall_spec(v, project, top_k, kind, raw, qvec).len() ==> score_at_least(
            (#[trigger] recall_spec(v, project, top_k, kind, raw, qvec)[i]).score,
            (#[trigger] recall_spec(v, project, top_k, kind, raw, qvec)[j]).score,
        ),
        forall|i: int, j: int| 0 <= i < j < recall_spec(v, project, top_k, kind, raw, qvec).len() ==> (
        #[trigger] recall_spec(v, project, top_k, kind, raw, qvec)[i]).id != (#[trigger] recall_spec(
            v,
            project,
            top_k,
            kind,
            raw,
            qvec,
        )[j]).id,
{
    let fts = fts_route(v, project, kind, raw);
    let vc = vec_route(v, project, kind, qvec, route_pool(top_k));
    let vec = vc.map_values(|c: VecCand| c.id);
    lemma_fts_route_props(v, project, kind, raw);
    lemma_vec_route_props(v, project, kind, qvec, route_pool(top_k));
    let f = |x: HitId| fused_cand(v, fts, vec, x);
    let ids = fused_ids(fts, vec);
    let mapped = ids.map_values(f);
    let ranked = rank_stable(mapped, rrf_before());
    lemma_rank_stable_contents(mapped, rrf_before());
    lemma_rrf_before_strict();
    lemma_rank_stable_sorted(mapped, rrf_before());
    let limit = hit_limit(top_k);
    let top = fused_ranking(v, fts, vec, limit);
    assert(top == (if limit < ranked.len() { ranked.take(limit as int) } else { ranked }));
    let hits = recall_spec(v, project, top_k, kind, raw, qvec);
    assert(hits == top.map_values(|c: FusedCand| hit_of(v, c)));
    assert forall|i: int| 0 <= i < hits.len() implies {
        let h = #[trigger] hits[i];
        &&& hit_exists(v, h.id)
        &&& hit_project(v, h.id) == project
        &&& kind_wanted(kind, h.kind)
        &&& h.kind == hit_row(v, h.id).kind
        &&& h.content == hit_row(v, h.id).content
        &&& h.provenance == hit_row(v, h.id).provenance
    } by {
        let c = top[i];
        assert(c == ranked[i]);
        assert(ranked.contains(c));
        lemma_rank_stable_contains(mapped, rrf_before(), c);
        let j = choose|j: int| 0 <= j < mapped.len() && mapped[j] == c;
        let x = ids[j];
        assert(c.id == x);
        if j < fts.len() {
            assert(x == fts[j]);
        } else {
            let rest = vec.filter(|y: HitId| !fts.contains(y));
            assert(x == rest[j - fts.len()]);
            assert(rest.contains(x));
            vec.lemma_filter_contains_rev(|y: HitId| !fts.contains(y), x);
            let k = choose|k: int| 0 <= k < vec.len() && vec[k] == x;
            assert(vec[k] == vc[k].id);
        }
    }
    assert forall|i: int, j: int| 0 <= i < j < hits.len() implies score_at_least(
        (#[trigger] hits[i]).score,
        (#[trigger] hits[j]).score,
    ) by {
        assert(top[i] == ranked[i] && top[j] == ranked[j]);
        assert(!rrf_before()(ranked[j], ranked[i]));
    }
    // each hit once
    let rows = confirmed_spec(v, project, kind);
    lemma_confirmed_distinct(v, project, kind);
    let vmapped = rows.map_values(|r: ConfirmedRowView| vec_cand(r, qvec));
    let vkey = |c: VecCand| c.id;
    assert(distinct_keys(vmapped, vkey)) by {
        assert forall|i: int, j: int| 0 <= i < j < vmapped.len() implies vkey(#[trigger] vmapped[i]) != vkey(
            #[trigger] vmapped[j],
        ) by {
            assert(vmapped[i].id == rows[i].id && vmapped[j].id == rows[j].id);
        }
    }
    lemma_rank_stable_distinct_keys(vmapped, vec_before(), vkey);
    let vranked = rank_stable(vmapped, vec_before());
    assert(vec.no_duplicates()) by {
        assert forall|i: int, j: int| 0 <= i < vec.len() && 0 <= j < vec.len() && i != j implies vec[i] != vec[j] by {
            assert(vec[i] == vranked[i].id && vec[j] == vranked[j].id);
            if i < j {
                assert(vkey(vranked[i]) != vkey(vranked[j]));
            } else {
                assert(vkey(vranked[j]) != vkey(vranked[i]));
            }
        }
    }
    let ident = |x: HitId| x;
    let notin = |y: HitId| !fts.contains(y);
    assert(distinct_keys(vec, ident));
    lemma_filter_distinct_keys(vec, notin, ident);
    let rest = vec.filter(notin);
    assert(rest.no_duplicates()) by {
        assert forall|i: int, j: int| 0 <= i < rest.len() && 0 <= j < rest.len() && i != j implies rest[i] != rest[j] by {
            if i < j {
                assert(ident(rest[i]) != ident(rest[j]));
            } else {
                assert(ident(rest[j]) != ident(rest[i]));
            }
        }
    }
    assert forall|i: int, j: int| 0 <= i < fts.len() && 0 <= j < rest.len() implies fts[i] != rest[j] by {
        assert(rest.contains(rest[j]));
        vec.lemma_filter_contains_rev(notin, rest[j]);
        assert(notin(rest[j]));
    }
    vstd::seq_lib::lemma_no_dup_in_concat(fts, rest);
    assert(ids == fts + rest);
    let fkey = |c: FusedCand| c.id;
    assert(distinct_keys(mapped, fkey)) by {
        assert forall|i: int, j: int| 0 <= i < j < mapped.len() implies fkey(#[trigger] mapped[i]) != fkey(
            #[trigger] mapped[j],
        ) by {
            assert(mapped[i].id == ids[i] && mapped[j].id == ids[j]);
        }
    }
    lemma_rank_stable_distinct_keys(mapped, rrf_before(), fkey);
    assert forall|i: int, j: int| 0 <= i < j < hits.len() implies (#[trigger] hits[i]).id != (#[trigger] hits[j]).id by {
        assert(top[i] == ranked[i] && top[j] == ranked[j]);
        assert(fkey(ranked[i]) != fkey(ranked[j]));
    }
}

/// Recall's vector ranks follow cosine with the query embedding: when hit
/// `h` has vector rank `a` and hit `g` has vector rank `b` with `a < b`, then
/// `cos(q, g) <= cos(q, h)` over their stored embeddings
/// (`dot(q,g)^2 * |h|^2 <= dot(q,h)^2 * |g|^2`).
pub proof fn lemma_recall_vector_ranks_by_cosine(
    v: StoreView,
    project: ProjectId,
    top_k: usize,
    kind: Option<MemoryType>,
    raw: Seq<(HitId, MemoryType)>,
    qvec: Seq<u32>,
)
    requires
        store_wf(v),
        valid_embedding(qvec),
    ensures
        forall|i: int, j: int|
            0 <= i < recall_spec(v, project, top_k, kind, raw, qvec).len() && 0 <= j < recall_spec(
                v,
                project,
                top_k,
                kind,
                raw,
                qvec,
            ).len() && (#[trigger] recall_spec(v, project, top_k, kind, raw, qvec)[i]).score.vec_rank is Some
                && (#[trigger] recall_spec(v, project, top_k, kind, raw, qvec)[j]).score.vec_rank is Some
                && recall_spec(v, project, top_k, kind, raw, qvec)[i].score.vec_rank->Some_0 < recall_spec(
                v,
                project,
                top_k,
                kind,
                raw,
                qvec,
            )[j].score.vec_rank->Some_0 ==> {
                let e = hit_row(v, recall_spec(v, project, top_k, kind, raw, qvec)[i].id).embedding.unwrap();
                let f = hit_row(v, recall_spec(v, project, top_k, kind, raw, qvec)[j].id).embedding.unwrap();
                dot_upto(qvec, f, EMBED_DIM as nat) * dot_upto(qvec, f, EMBED_DIM as nat) * sq_upto(e, EMBED_DIM as nat)
                    <= dot_upto(qvec, e, EMBED_DIM as nat) * dot_upto(qvec, e, EMBED_DIM as nat) * sq_upto(
                    f,
                    EMBED_DIM as nat,
                )
            },
{
    let fts = fts_route(v, project, kind, raw);
    let vc = vec_route(v, project, kind, qvec, route_pool(top_k));
    let vec = vc.map_values(|c: VecCand| c.id);
    lemma_vec_route_props(v, project, kind, qvec, route_pool(top_k));
    lemma_vec_route_by_cosine(v, project, kind, qvec, route_pool(top_k));
    let f = |x: HitId| fused_cand(v, fts, vec, x);
    let ids = fused_ids(fts, vec);
    let mapped = ids.map_values(f);
    let ranked = rank_stable(mapped, rrf_before());
    lemma_rank_stable_contents(mapped, rrf_before());
    let limit = hit_limit(top_k);
    let top = fused_ranking(v, fts, vec, limit);
    let hits = recall_spec(v, project, top_k, kind, raw, qvec);
    assert(hits == top.map_values(|c: FusedCand| hit_of(v, c)));
    assert forall|i: int| 0 <= i < hits.len() && (#[trigger] hits[i]).score.vec_rank is Some implies {
        let a = hits[i].score.vec_rank->Some_0 as int;
        0 <= a < vc.len() && vc[a].id == hits[i].id
    } by {
        let c = top[i];
        assert(c == ranked[i]);
        assert(ranked.contains(c));
        lemma_rank_stable_contains(mapped, rrf_before(), c);
        let k = choose|k: int| 0 <= k < mapped.len() && mapped[k] == c;
        let x = ids[k];
        assert(c == f(x));
        lemma_first_index_absent(vec, x);
        let a = first_index(vec, x)->Some_0;
        assert(vec[a as int] == vc[a as int].id);
    }
    assert forall|i: int, j: int|
        0 <= i < hits.len() && 0 <= j < hits.len() && (#[trigger] hits[i]).score.vec_rank is Some
            && (#[trigger] hits[j]).score.vec_rank is Some && hits[i].score.vec_rank->Some_0
            < hits[j].score.vec_rank->Some_0 implies {
        let e = hit_row(v, hits[i].id).embedding.unwrap();
        let f = hit_row(v, hits[j].id).embedding.unwrap();
        dot_upto(qvec, f, EMBED_DIM as nat) * dot_upto(qvec, f, EMBED_DIM as nat) * sq_upto(e, EMBED_DIM as nat)
            <= dot_upto(qvec, e, EMBED_DIM as nat) * dot_upto(qvec, e, EMBED_DIM as nat) * sq_upto(f, EMBED_DIM as nat)
    } by {
        let a = hits[i].score.vec_rank->Some_0 as int;
        let b = hits[j].score.vec_rank->Some_0 as int;
        assert(vc[a].id == hits[i].id && vc[b].id == hits[j].id);
        assert(0 <= a < b < vc.len());
        assert(vc[a] == vec_route(v, project, kind, qvec, route_pool(top_k))[a]);
        assert(vc[b] == vec_route(v, project, kind, qvec, route_pool(top_k))[b]);
    }
}

proof fn lemma_first_index_bound(s: Seq<HitId>, x: HitId)
    ensures
        first_index(s, x) matches Some(i) ==> i < s.len(),
{
    lemma_first_index_absent(s, x);
}

/// The fused score as numerator and denominator.
fn rrf_fraction(s: FusedScore) -> (r: (u64, u128))
    requires
        s.fts_rank matches Some(a) ==> a <= MAX_CONFIRMED,
        s.vec_rank matches Some(b) ==> b <= MAX_CONFIRMED,
    ensures
        r.0 as int == rrf_num(s),
        r.1 as int == rrf_den(s),
{
    match (s.fts_rank, s.vec_rank) {
        (Some(a), Some(b)) => {
            let x = RRF_K as u128 + a as u128;
            let y = RRF_K as u128 + b as u128;
            assert(x * y <= 0x1_0000_0040 * 0x1_0000_0040) by (nonlinear_arith)
                requires
                    0 <= x <= 0x1_0000_0040,
                    0 <= y <= 0x1_0000_0040,
            ;
            (2 * (RRF_K as u64) + a as u64 + b as u64, x * y)
        },
        (Some(a), None) => (1, RRF_K as u128 + a as u128),
        (None, Some(b)) => (1, RRF_K as u128 + b as u128),
        (None, None) => (0, 1),
    }
}

fn rrf_ranks_before(a: &FusedCand, b: &FusedCand) -> (r: bool)
    requires
        a.score.fts_rank matches Some(x) ==> x <= MAX_CONFIRMED,
        a.score.vec_rank matches Some(x) ==> x <= MAX_CONFIRMED,
        b.score.fts_rank matches Some(x) ==> x <= MAX_CONFIRMED,
        b.score.vec_rank matches Some(x) ==> x <= MAX_CONFIRMED,
    ensures
        r == rrf_before()(*a, *b),
{
    let (na, da) = rrf_fraction(a.score);
    let (nb, db) = rrf_fraction(b.score);
    product_lt(da, nb, db, na)
}

pub open spec fn ranks_bounded(c: FusedCand) -> bool {
    &&& (c.score.fts_rank matches Some(x) ==> x <= MAX_CONFIRMED)
    &&& (c.score.vec_rank matches Some(x) ==> x <= MAX_CONFIRMED)
}

/// `cands` in the order a stable sort by fused score (highest first) gives them.
fn rank_fused_cands(cands: &Vec<FusedCand>) -> (r: Vec<FusedCand>)
    requires
        forall|i: int| 0 <= i < cands@.len() ==> ranks_bounded(#[trigger] cands@[i]),
    ensures
        r@ == rank_stable(cands@, rrf_before()),
{
    let mut out: Vec<FusedCand> = Vec::new();
    let mut i: usize = 0;
    while i < cands.len()
        invariant
            i <= cands@.len(),
            forall|k: int| 0 <= k < cands@.len() ==> ranks_bounded(#[trigger] cands@[k]),
            out@ == rank_stable(cands@.take(i as int), rrf_before()),
            forall|k: int| 0 <= k < out@.len() ==> ranks_bounded(#[trigger] out@[k]),
        decreases cands@.len() - i,
    {
        let x = cands[i];
        assert(ranks_bounded(cands@[i as int]));
        let mut p: usize = 0;
        while p < out.len() && !rrf_ranks_before(&x, &out[p])
            invariant
                p <= out@.len(),
                ranks_bounded(x),
                forall|k: int| 0 <= k < out@.len() ==> ranks_bounded(#[trigger] out@[k]),
                forall|j: int| 0 <= j < p ==> !rrf_before()(x, #[trigger] out@[j]),
            decreases out@.len() - p,
        {
            p = p + 1;
        }
        proof {
            lemma_insert_ranked_at(out@, x, rrf_before(), p as int);
            assert(cands@.take(i + 1).drop_last() =~= cands@.take(i as int));
            assert(cands@.take(i + 1).last() == x);
        }
        let ghost prev = out@;
        out.insert(p, x);
        assert(out@ =~= prev.take(p as int).push(x) + prev.skip(p as int));
        assert forall|k: int| 0 <= k < out@.len() implies ranks_bounded(#[trigger] out@[k]) by {
            if k < p {
                assert(out@[k] == prev[k]);
            } else if k > p {
                assert(out@[k] == prev[k - 1]);
            }
        }
        i = i + 1;
    }
    assert(cands@.take(i as int) =~= cands@);
    out
}


/// Fuses the full-text candidates `raw` with the vector route for `qvec` and
/// returns the best `hit_limit(q.top_k)` hits of `project`, highest fused
/// score first. Only `Scope::Project` recall exists; wider scopes read the
/// project too.
pub fn recall_fuse(
    store: &SqliteStore,
    project: ProjectId,
    q: &MemoryQuery,
    raw: &Vec<(HitId, MemoryType)>,
    qvec: &Vec<u32>,
) -> (r: MemoryResults)
    requires
        store.wf(),
        valid_embedding(qvec@),
    ensures
        r.items@.map_values(|h: MemoryHit| h@) == recall_spec(store@, project, q.top_k, q.kind, raw@, qvec@),
{
    let ghost v = store@;
    let limit: usize = if q.top_k < 1 { 1 } else { q.top_k };
    let pool: usize = if limit < PER_ROUTE_CAP { PER_ROUTE_CAP } else { limit };
    let fts = build_fts_route(store, project, q.kind, raw);
    let vc = build_vec_route(store, project, q.kind, qvec, pool);
    proof {
        lemma_fts_route_props(v, project, q.kind, raw@);
        lemma_distinct_hits_bounded(v, fts@);
        lemma_vec_route_props(v, project, q.kind, qvec@, pool);
    }
    let mut vec_ids: Vec<HitId> = Vec::new();
    let mut i: usize = 0;
    while i < vc.len()
        invariant
            i <= vc@.len(),
            vec_ids@ == vc@.take(i as int).map_values(|c: VecCand| c.id),
        decreases vc@.len() - i,
    {
        vec_ids.push(vc[i].id);
        assert(vc@.take(i + 1) =~= vc@.take(i as int).push(vc@[i as int]));
        assert(vec_ids@ =~= vc@.take(i + 1).map_values(|c: VecCand| c.id));
        i = i + 1;
    }
    assert(vc@.take(i as int) =~= vc@);
    let ghost fv = fts@;
    let ghost vv = vec_ids@;
    assert(vv == vec_route(v, project, q.kind, qvec@, route_pool(q.top_k)).map_values(|c: VecCand| c.id));
    assert forall|k: int| 0 <= k < vv.len() implies hit_exists(v, #[trigger] vv[k]) && hit_project(v, vv[k]) == project by {
        assert(vv[k] == vc@[k].id);
    }
    let ghost f = |x: HitId| fused_cand(v, fv, vv, x);
    let mut cands: Vec<FusedCand> = Vec::new();
    let mut a: usize = 0;
    while a < fts.len()
        invariant
            store.wf(),
            store@ == v,
            fts@ == fv,
            vec_ids@ == vv,
            fv == fts_route(v, project, q.kind, raw@),
            fv.len() <= MAX_CONFIRMED,
            vv.len() <= MAX_CONFIRMED,
            f == (|x: HitId| fused_cand(v, fv, vv, x)),
            forall|k: int| 0 <= k < fv.len() ==> hit_exists(v, #[trigger] fv[k]) && hit_project(v, fv[k]) == project,
            a <= fv.len(),
            cands@ == fv.take(a as int).map_values(f),
            forall|k: int| 0 <= k < cands@.len() ==> ranks_bounded(#[trigger] cands@[k]),
            forall|k: int| 0 <= k < cands@.len() ==> hit_exists(v, (#[trigger] cands@[k]).id) && hit_project(v, cands@[k].id) == project,
        decreases fv.len() - a,
    {
        let x = fts[a];
        let k = match store.locate(x) {
            Some((_, k)) => k,
            None => MemoryType::Episodic,
        };
        let fr = find_hit(&fts, x);
        let vr = find_hit(&vec_ids, x);
        proof {
            lemma_first_index_bound(fv, x);
            lemma_first_index_bound(vv, x);
        }
        let c = FusedCand { id: x, kind: k, score: FusedScore { fts_rank: fr, vec_rank: vr } };
        assert(c == f(x));
        cands.push(c);
        assert(fv.take(a + 1) =~= fv.take(a as int).push(x));
        assert(cands@ =~= fv.take(a + 1).map_values(f));
        a = a + 1;
    }
    assert(fv.take(a as int) =~= fv);
    let ghost notin = |x: HitId| !fv.contains(x);
    let mut b: usize = 0;
    while b < vec_ids.len()
        invariant
            store.wf(),
            store@ == v,
            fts@ == fv,
            vec_ids@ == vv,
            fv.len() <= MAX_CONFIRMED,
            vv.len() <= MAX_CONFIRMED,
            f == (|x: HitId| fused_cand(v, fv, vv, x)),
            notin == (|x: HitId| !fv.contains(x)),
            forall|k: int| 0 <= k < vv.len() ==> hit_exists(v, #[trigger] vv[k]) && hit_project(v, vv[k]) == project,
            b <= vv.len(),
            cands@ == (fv + vv.take(b as int).filter(notin)).map_values(f),
            forall|k: int| 0 <= k < cands@.len() ==> ranks_bounded(#[trigger] cands@[k]),
            forall|k: int| 0 <= k < cands@.len() ==> hit_exists(v, (#[trigger] cands@[k]).id) && hit_project(v, cands@[k].id) == project,
        decreases vv.len() - b,
    {
        let x = vec_ids[b];
        proof {
            reveal(Seq::filter);
        }
        assert(vv.take(b + 1).drop_last() =~= vv.take(b as int));
        assert(vv.take(b + 1).last() == x);
        let fr = find_hit(&fts, x);
        proof {
            lemma_first_index_absent(fv, x);
        }
        if fr.is_none() {
            let k = match store.locate(x) {
                Some((_, k)) => k,
                None => MemoryType::Episodic,
            };
            let vr = find_hit(&vec_ids, x);
            proof {
                lemma_first_index_bound(vv, x);
            }
            let c = FusedCand { id: x, kind: k, score: FusedScore { fts_rank: fr, vec_rank: vr } };
            assert(c == f(x));
            let ghost prev = cands@;
            cands.push(c);
            assert((fv + vv.take(b + 1).filter(notin)) =~= (fv + vv.take(b as int).filter(notin)).push(x));
            assert(cands@ =~= (fv + vv.take(b + 1).filter(notin)).map_values(f));
        } else {
            assert(vv.take(b + 1).filter(notin) =~= vv.take(b as int).filter(notin));
        }
        b = b + 1;
    }
    assert(vv.take(b as int) =~= vv);
    assert(cands@ == fused_ids(fv, vv).map_values(f));
    let mut ranked = rank_fused_cands(&cands);
    proof {
        lemma_rank_stable_contents(cands@, rrf_before());
    }
    if limit < ranked.len() {
        ranked.truncate(limit);
    }
    let ghost rk = ranked@;
    assert(rk == fused_ranking(v, fv, vv, hit_limit(q.top_k)));
    assert forall|k: int| 0 <= k < rk.len() implies hit_exists(v, (#[trigger] rk[k]).id) by {
        let full = rank_stable(cands@, rrf_before());
        assert(rk[k] == full[k]);
        assert(full.contains(rk[k]));
        lemma_rank_stable_contains(cands@, rrf_before(), rk[k]);
    }
    let mut items: Vec<MemoryHit> = Vec::new();
    let mut h: usize = 0;
    while h < ranked.len()
        invariant
            store.wf(),
            store@ == v,
            ranked@ == rk,
            forall|k: int| 0 <= k < rk.len() ==> hit_exists(v, (#[trigger] rk[k]).id),
            h <= rk.len(),
            items@.map_values(|x: MemoryHit| x@) == rk.take(h as int).map_values(|c: FusedCand| hit_of(v, c)),
        decreases rk.len() - h,
    {
        let c = ranked[h];
        assert(hit_exists(v, rk[h as int].id));
        let hit = match store.hit_get(c.id) {
            Ok(row) => MemoryHit {
                score: c.score,
                kind: row.kind,
                content: row.content,
                provenance: row.provenance,
                id: c.id,
            },
            Err(_) => {
                assert(false);
                MemoryHit {
                    score: c.score,
                    kind: c.kind,
                    content: String::new(),
                    provenance: crate::memory::store::default_provenance(None),
                    id: c.id,
                }
            },
        };
        let ghost prev = items@;
        items.push(hit);
        assert(rk.take(h + 1) =~= rk.take(h as int).push(c));
        assert(items@.map_values(|x: MemoryHit| x@) =~= prev.map_values(|x: MemoryHit| x@).push(hit@));
        assert(items@.map_values(|x: MemoryHit| x@) =~= rk.take(h + 1).map_values(|c: FusedCand| hit_of(v, c)));
        h = h + 1;
    }
    assert(rk.take(h as int) =~= rk);
    MemoryResults { items }
}


/// Multi-route recall for `project`: asks the full-text index for up to
/// `route_pool(q.top_k)` candidates per layer (`fts_hits` on the index as it
/// stands), embeds the query, and fuses the two routes (see
/// [`recall_fuse`]); a query without alphanumeric tokens gets none from the
/// index.
pub fn recall<E: Embedder>(store: &SqliteStore, embedder: &E, project: ProjectId, q: MemoryQuery) -> (r: Result<
    MemoryResults,
    BluesError,
>)
    requires
        store.wf(),
    ensures
        r is Ok ==> fts_hits(store.index_history(), project, q.query@, route_pool(q.top_k)) is Some,
        r matches Ok(res) ==> res.items@.map_values(|h: MemoryHit| h@) == recall_spec(
            store@,
            project,
            q.top_k,
            q.kind,
            fts_hits(store.index_history(), project, q.query@, route_pool(q.top_k))->Some_0,
            embedder.spec_embed(q.query@),
        ),
        fts_hits(store.index_history(), project, q.query@, route_pool(q.top_k)) is None ==> r is Err,
        (crate::text::is_blank_text(q.query@) || crate::text::tokens(q.query@).len() == 0)
            && embedder.infallible() ==> r is Ok,
        r is Err && embedder.infallible() ==> r->Err_0 is Internal,
{
    let limit: usize = if q.top_k < 1 { 1 } else { q.top_k };
    let pool: usize = if limit < PER_ROUTE_CAP { PER_ROUTE_CAP } else { limit };
    let raw = match store.fts_search(project, q.query.as_str(), pool) {
        Ok(raw) => raw,
        Err(e) => {
            return Err(e);
        },
    };
    let qvec = match embedder.embed(q.query.as_str()) {
        Ok(v) => v,
        Err(e) => {
            return Err(e);
        },
    };
    let res = recall_fuse(store, project, &q, &raw, &qvec);
    assert(res.items@.map_values(|h: MemoryHit| h@) == recall_spec(
        store@,
        project,
        q.top_k,
        q.kind,
        raw@,
        embedder.spec_embed(q.query@),
    ));
    Ok(res)
}

} // verus!
