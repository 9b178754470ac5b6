//! Stable ranking: the order a stable sort by "ranks before" produces, and the
//! exact comparison of products that the ranking keys need.

use vstd::prelude::*;

verus! {

/// Inserts `x` into `s` just before the first element it ranks before.
pub open spec fn insert_ranked<T>(s: Seq<T>, x: T, before: spec_fn(T, T) -> bool) -> Seq<T>
    decreases s.len(),
{
    if s.len() == 0 {
        seq![x]
    } else if before(x, s[0]) {
        seq![x] + s
    } else {
        seq![s[0]] + insert_ranked(s.drop_first(), x, before)
    }
}

/// The order a stable sort by `before` gives `s`: elements that rank equal
/// keep their relative order.
pub open spec fn rank_stable<T>(s: Seq<T>, before: spec_fn(T, T) -> bool) -> Seq<T>
    decreases s.len(),
{
    if s.len() == 0 {
        Seq::empty()
    } else {
        insert_ranked(rank_stable(s.drop_last(), before), s.last(), before)
    }
}

/// Inserting at the first position whose element `x` ranks before.
pub proof fn lemma_insert_ranked_at<T>(s: Seq<T>, x: T, before: spec_fn(T, T) -> bool, p: int)
    requires
        0 <= p <= s.len(),
        forall|j: int| 0 <= j < p ==> !before(x, #[trigger] s[j]),
        p < s.len() ==> before(x, s[p]),
    ensures
        insert_ranked(s, x, before) == s.take(p).push(x) + s.skip(p),
    decreases s.len(),
{
    if s.len() == 0 {
        assert(s.take(p).push(x) + s.skip(p) =~= seq![x]);
    } else if p == 0 {
        assert(s.take(0).push(x) + s.skip(0) =~= seq![x] + s);
    } else {
        let t = s.drop_first();
        assert forall|j: int| 0 <= j < p - 1 implies !before(x, #[trigger] t[j]) by {
            assert(t[j] == s[j + 1]);
        }
        lemma_insert_ranked_at(t, x, before, p - 1);
        assert(seq![s[0]] + (t.take(p - 1).push(x) + t.skip(p - 1)) =~= s.take(p).push(x) + s.skip(p));
    }
}

pub proof fn lemma_insert_ranked_contents<T>(s: Seq<T>, x: T, before: spec_fn(T, T) -> bool)
    ensures
        insert_ranked(s, x, before).len() == s.len() + 1,
        insert_ranked(s, x, before).to_multiset() == s.to_multiset().insert(x),
    decreases s.len(),
{
    broadcast use vstd::seq_lib::group_to_multiset_ensures;
    if s.len() == 0 {
        assert(seq![x] =~= Seq::<T>::empty().push(x));
    } else if before(x, s[0]) {
        assert(seq![x] + s =~= s.insert(0, x));
        s.to_multiset_ensures();
    } else {
        let t = s.drop_first();
        lemma_insert_ranked_contents(t, x, before);
        let r = insert_ranked(t, x, before);
        assert(seq![s[0]] + r =~= r.insert(0, s[0]));
        assert(s =~= t.insert(0, s[0]));
        assert(t.insert(0, s[0]).to_multiset() =~= t.to_multiset().insert(s[0]));
        assert(r.insert(0, s[0]).to_multiset() =~= r.to_multiset().insert(s[0]));
        assert(r.to_multiset().insert(s[0]) =~= s.to_multiset().insert(x));
    }
}

/// A stable ranking is a permutation of its input.
pub proof fn lemma_rank_stable_contents<T>(s: Seq<T>, before: spec_fn(T, T) -> bool)
    ensures
        rank_stable(s, before).len() == s.len(),
        rank_stable(s, before).to_multiset() == s.to_multiset(),
    decreases s.len(),
{
    broadcast use vstd::seq_lib::group_to_multiset_ensures;
    if s.len() > 0 {
        lemma_rank_stable_contents(s.drop_last(), before);
        lemma_insert_ranked_contents(rank_stable(s.drop_last(), before), s.last(), before);
        assert(s =~= s.drop_last().push(s.last()));
    }
}

/// Elements of a stable ranking are elements of its input, and the other way round.
pub proof fn lemma_rank_stable_contains<T>(s: Seq<T>, before: spec_fn(T, T) -> bool, x: T)
    ensures
        rank_stable(s, before).contains(x) <==> s.contains(x),
{
    broadcast use vstd::seq_lib::group_to_multiset_ensures;
    lemma_rank_stable_contents(s, before);
    assert(rank_stable(s, before).to_multiset().count(x) == s.to_multiset().count(x));
}

/// No element of `s` ranks before an earlier one.
pub open spec fn ranked_by<T>(s: Seq<T>, before: spec_fn(T, T) -> bool) -> bool {
    forall|i: int, j: int| 0 <= i < j < s.len() ==> !before(#[trigger] s[j], #[trigger] s[i])
}

/// `before` is a strict order: never both ways round, and transitive.
pub open spec fn strict_order<T>(before: spec_fn(T, T) -> bool) -> bool {
    &&& forall|a: T, b: T| #[trigger] before(a, b) ==> !before(b, a)
    &&& forall|a: T, b: T, c: T| #[trigger] before(a, b) && #[trigger] before(b, c) ==> before(a, c)
}

proof fn lemma_insert_ranked_sorted<T>(s: Seq<T>, x: T, before: spec_fn(T, T) -> bool)
    requires
        strict_order(before),
        ranked_by(s, before),
    ensures
        ranked_by(insert_ranked(s, x, before), before),
    decreases s.len(),
{
    let r = insert_ranked(s, x, before);
    if s.len() == 0 {
    } else if before(x, s[0]) {
        assert forall|i: int, j: int| 0 <= i < j < r.len() implies !before(#[trigger] r[j], #[trigger] r[i]) by {
            if i == 0 {
                assert(r[j] == s[j - 1]);
                if before(s[j - 1], x) {
                    if j - 1 > 0 {
                        assert(!before(s[j - 1], s[0]));
                    }
                }
            } else {
                assert(r[i] == s[i - 1] && r[j] == s[j - 1]);
            }
        }
    } else {
        let t = s.drop_first();
        assert(ranked_by(t, before)) by {
            assert forall|i: int, j: int| 0 <= i < j < t.len() implies !before(#[trigger] t[j], #[trigger] t[i]) by {
                assert(t[i] == s[i + 1] && t[j] == s[j + 1]);
            }
        }
        lemma_insert_ranked_sorted(t, x, before);
        let rt = insert_ranked(t, x, before);
        lemma_insert_ranked_contents(t, x, before);
        assert(r =~= seq![s[0]] + rt);
        assert forall|i: int, j: int| 0 <= i < j < r.len() implies !before(#[trigger] r[j], #[trigger] r[i]) by {
            if i == 0 {
                assert(r[j] == rt[j - 1]);
                assert(rt.to_multiset().count(rt[j - 1]) > 0) by {
                    vstd::seq_lib::lemma_seq_contains_after_push(Seq::<T>::empty(), rt[j - 1], rt[j - 1]);
                    rt.to_multiset_ensures();
                    assert(rt.contains(rt[j - 1]));
                }
                assert(t.to_multiset().insert(x).count(rt[j - 1]) > 0);
                if rt[j - 1] != x {
                    t.to_multiset_ensures();
                    assert(t.contains(rt[j - 1]));
                    let k = choose|k: int| 0 <= k < t.len() && t[k] == rt[j - 1];
                    assert(s[k + 1] == t[k]);
                }
            } else {
                assert(r[i] == rt[i - 1] && r[j] == rt[j - 1]);
            }
        }
    }
}

/// A stable ranking by a strict order is sorted: no element ranks before an
/// earlier one.
pub proof fn lemma_rank_stable_sorted<T>(s: Seq<T>, before: spec_fn(T, T) -> bool)
    requires
        strict_order(before),
    ensures
        ranked_by(rank_stable(s, before), before),
    decreases s.len(),
{
    if s.len() > 0 {
        lemma_rank_stable_sorted(s.drop_last(), before);
        lemma_insert_ranked_sorted(rank_stable(s.drop_last(), before), s.last(), before);
    }
}

/// `before` is a strict order among the values `ok` admits.
pub open spec fn strict_order_on<T>(ok: spec_fn(T) -> bool, before: spec_fn(T, T) -> bool) -> bool {
    &&& forall|a: T, b: T| ok(a) && ok(b) && #[trigger] before(a, b) ==> !before(b, a)
    &&& forall|a: T, b: T, c: T|
        ok(a) && ok(b) && ok(c) && #[trigger] before(a, b) && #[trigger] before(b, c) ==> before(a, c)
}

proof fn lemma_insert_ranked_sorted_on<T>(s: Seq<T>, x: T, before: spec_fn(T, T) -> bool, ok: spec_fn(T) -> bool)
    requires
        strict_order_on(ok, before),
        ranked_by(s, before),
        ok(x),
        forall|i: int| 0 <= i < s.len() ==> ok(#[trigger] s[i]),
    ensures
        ranked_by(insert_ranked(s, x, before), before),
        forall|i: int| 0 <= i < insert_ranked(s, x, before).len() ==> ok(#[trigger] insert_ranked(s, x, before)[i]),
    decreases s.len(),
{
    broadcast use vstd::seq_lib::group_to_multiset_ensures;
    let r = insert_ranked(s, x, before);
    lemma_insert_ranked_contents(s, x, before);
    assert forall|i: int| 0 <= i < r.len() implies ok(#[trigger] r[i]) by {
        assert(r.contains(r[i]));
        assert(r.to_multiset().count(r[i]) > 0);
        assert(s.to_multiset().insert(x).count(r[i]) > 0);
        if r[i] != x {
            assert(s.contains(r[i]));
        }
    }
    if s.len() == 0 {
    } else if before(x, s[0]) {
        assert forall|i: int, j: int| 0 <= i < j < r.len() implies !before(#[trigger] r[j], #[trigger] r[i]) by {
            if i == 0 {
                assert(r[j] == s[j - 1]);
                assert(ok(s[j - 1]) && ok(s[0]));
                if before(s[j - 1], x) {
                    if j - 1 > 0 {
                        assert(!before(s[j - 1], s[0]));
                    }
                }
            } else {
                assert(r[i] == s[i - 1] && r[j] == s[j - 1]);
            }
        }
    } else {
        let t = s.drop_first();
        assert(ranked_by(t, before)) by {
            assert forall|i: int, j: int| 0 <= i < j < t.len() implies !before(#[trigger] t[j], #[trigger] t[i]) by {
                assert(t[i] == s[i + 1] && t[j] == s[j + 1]);
            }
        }
        assert forall|i: int| 0 <= i < t.len() implies ok(#[trigger] t[i]) by {
            assert(t[i] == s[i + 1]);
        }
        lemma_insert_ranked_sorted_on(t, x, before, ok);
        let rt = insert_ranked(t, x, before);
        lemma_insert_ranked_contents(t, x, before);
        assert(r =~= seq![s[0]] + rt);
        assert forall|i: int, j: int| 0 <= i < j < r.len() implies !before(#[trigger] r[j], #[trigger] r[i]) by {
            if i == 0 {
                assert(r[j] == rt[j - 1]);
                assert(ok(rt[j - 1]) && ok(s[0]) && ok(x));
                assert(rt.contains(rt[j - 1]));
                assert(rt.to_multiset().count(rt[j - 1]) > 0);
                assert(t.to_multiset().insert(x).count(rt[j - 1]) > 0);
                if rt[j - 1] != x {
                    assert(t.contains(rt[j - 1]));
                    let k = choose|k: int| 0 <= k < t.len() && t[k] == rt[j - 1];
                    assert(s[k + 1] == t[k]);
                }
            } else {
                assert(r[i] == rt[i - 1] && r[j] == rt[j - 1]);
            }
        }
    }
}

/// A stable ranking by an order that is strict among the values `ok` admits,
/// of values it admits, is sorted.
pub proof fn lemma_rank_stable_sorted_on<T>(s: Seq<T>, before: spec_fn(T, T) -> bool, ok: spec_fn(T) -> bool)
    requires
        strict_order_on(ok, before),
        forall|i: int| 0 <= i < s.len() ==> ok(#[trigger] s[i]),
    ensures
        ranked_by(rank_stable(s, before), before),
        forall|i: int| 0 <= i < rank_stable(s, before).len() ==> ok(#[trigger] rank_stable(s, before)[i]),
    decreases s.len(),
{
    if s.len() > 0 {
        let d = s.drop_last();
        assert forall|i: int| 0 <= i < d.len() implies ok(#[trigger] d[i]) by {
            assert(d[i] == s[i]);
        }
        lemma_rank_stable_sorted_on(d, before, ok);
        lemma_insert_ranked_sorted_on(rank_stable(d, before), s.last(), before, ok);
    }
}

/// No two elements of `s` share a key.
pub open spec fn distinct_keys<A, K>(s: Seq<A>, key: spec_fn(A) -> K) -> bool {
    forall|i: int, j: int| 0 <= i < j < s.len() ==> key(#[trigger] s[i]) != key(#[trigger] s[j])
}

/// Filtering keeps keys distinct.
pub proof fn lemma_filter_distinct_keys<A, K>(s: Seq<A>, p: spec_fn(A) -> bool, key: spec_fn(A) -> K)
    requires
        distinct_keys(s, key),
    ensures
        distinct_keys(s.filter(p), key),
    decreases s.len(),
{
    reveal(Seq::filter);
    if s.len() > 0 {
        let d = s.drop_last();
        assert(distinct_keys(d, key)) by {
            assert forall|i: int, j: int| 0 <= i < j < d.len() implies key(#[trigger] d[i]) != key(#[trigger] d[j]) by {
                assert(d[i] == s[i] && d[j] == s[j]);
            }
        }
        lemma_filter_distinct_keys(d, p, key);
        let fd = d.filter(p);
        let f = s.filter(p);
        if p(s.last()) {
            assert(f =~= fd.push(s.last()));
            assert forall|i: int, j: int| 0 <= i < j < f.len() implies key(#[trigger] f[i]) != key(#[trigger] f[j]) by {
                if j < fd.len() {
                    assert(f[i] == fd[i] && f[j] == fd[j]);
                } else {
                    assert(f[i] == fd[i]);
                    assert(fd.contains(fd[i]));
                    d.lemma_filter_contains_rev(p, fd[i]);
                    let k = choose|k: int| 0 <= k < d.len() && d[k] == fd[i];
                    assert(s[k] == d[k]);
                    assert(key(s[k]) != key(s[s.len() - 1]));
                }
            }
        } else {
            assert(f =~= fd);
        }
    }
}

/// A stable ranking keeps keys distinct: it is a permutation of its input.
pub proof fn lemma_rank_stable_distinct_keys<A, K>(s: Seq<A>, before: spec_fn(A, A) -> bool, key: spec_fn(A) -> K)
    requires
        distinct_keys(s, key),
    ensures
        distinct_keys(rank_stable(s, before), key),
{
    broadcast use vstd::seq_lib::group_to_multiset_ensures;
    let r = rank_stable(s, before);
    lemma_rank_stable_contents(s, before);
    assert(s.no_duplicates()) by {
        assert forall|i: int, j: int| 0 <= i < s.len() && 0 <= j < s.len() && i != j implies s[i] != s[j] by {
            if i < j {
                assert(key(s[i]) != key(s[j]));
            } else {
                assert(key(s[j]) != key(s[i]));
            }
        }
    }
    s.lemma_multiset_has_no_duplicates();
    r.lemma_multiset_has_no_duplicates_conv();
    assert forall|i: int, j: int| 0 <= i < j < r.len() implies key(#[trigger] r[i]) != key(#[trigger] r[j]) by {
        assert(r.contains(r[i]) && r.contains(r[j]));
        lemma_rank_stable_contains(s, before, r[i]);
        lemma_rank_stable_contains(s, before, r[j]);
        let a = choose|a: int| 0 <= a < s.len() && s[a] == r[i];
        let b = choose|b: int| 0 <= b < s.len() && s[b] == r[j];
        if a < b {
            assert(key(s[a]) != key(s[b]));
        } else if b < a {
            assert(key(s[b]) != key(s[a]));
        }
    }
}

/// `2^64`.
pub open spec fn two64() -> int {
    0x1_0000_0000_0000_0000int
}

/// The product `a * b` as a high part and a low 64-bit part.
pub fn mul_wide(a: u128, b: u64) -> (r: (u128, u64))
    ensures
        r.0 as int * two64() + r.1 as int == a as int * b as int,
{
    let a1: u128 = a / 0x1_0000_0000_0000_0000u128;
    let a0: u128 = a % 0x1_0000_0000_0000_0000u128;
    let bb: u128 = b as u128;
    assert(a1 < two64()) by {
        vstd::arithmetic::div_mod::lemma_div_is_ordered(a as int, u128::MAX as int, two64());
    }
    assert(a1 * bb <= (two64() - 1) * (two64() - 1)) by (nonlinear_arith)
        requires
            0 <= a1 < two64(),
            0 <= bb < two64(),
    ;
    assert(a0 * bb <= (two64() - 1) * (two64() - 1)) by (nonlinear_arith)
        requires
            0 <= a0 < two64(),
            0 <= bb < two64(),
    ;
    let p1: u128 = a1 * bb;
    let p0: u128 = a0 * bb;
    let lo: u64 = (p0 % 0x1_0000_0000_0000_0000u128) as u64;
    let carry: u128 = p0 / 0x1_0000_0000_0000_0000u128;
    assert(carry < two64()) by {
        vstd::arithmetic::div_mod::lemma_div_is_ordered(p0 as int, u128::MAX as int, two64());
    }
    assert(p1 + carry <= (two64() - 1) * (two64() - 1) + two64() - 1);
    let hi: u128 = p1 + carry;
    assert(a as int == a1 * two64() + a0) by {
        vstd::arithmetic::div_mod::lemma_fundamental_div_mod(a as int, two64());
    }
    assert(p0 as int == carry * two64() + lo) by {
        vstd::arithmetic::div_mod::lemma_fundamental_div_mod(p0 as int, two64());
    }
    assert(a as int * b as int == p1 * two64() + p0) by (nonlinear_arith)
        requires
            a as int == a1 * two64() + a0,
            p1 == a1 * bb,
            p0 == a0 * bb,
            bb == b,
    ;
    assert(hi as int * two64() + lo as int == a as int * b as int) by (nonlinear_arith)
        requires
            a as int * b as int == p1 * two64() + p0,
            p0 as int == carry * two64() + lo,
            hi == p1 + carry,
    ;
    (hi, lo)
}

proof fn lemma_two_part_lt(h1: int, l1: int, h2: int, l2: int)
    requires
        0 <= l1 < two64(),
        0 <= l2 < two64(),
        0 <= h1,
        0 <= h2,
    ensures
        (h1 * two64() + l1 < h2 * two64() + l2) <==> (h1 < h2 || (h1 == h2 && l1 < l2)),
{
    if h1 < h2 {
        assert(h1 * two64() + l1 < h2 * two64() + l2) by (nonlinear_arith)
            requires
                h1 < h2,
                0 <= l1 < two64(),
                0 <= l2,
        ;
    } else if h1 > h2 {
        assert(h1 * two64() + l1 > h2 * two64() + l2) by (nonlinear_arith)
            requires
                h1 > h2,
                0 <= l2 < two64(),
                0 <= l1,
        ;
    }
}

/// Whether `a * b < c * d`, computed without overflow.
pub fn product_lt(a: u128, b: u64, c: u128, d: u64) -> (r: bool)
    ensures
        r == ((a as int) * (b as int) < (c as int) * (d as int)),
{
    let (h1, l1) = mul_wide(a, b);
    let (h2, l2) = mul_wide(c, d);
    proof {
        lemma_two_part_lt(h1 as int, l1 as int, h2 as int, l2 as int);
    }
    h1 < h2 || (h1 == h2 && l1 < l2)
}

} // verus!
