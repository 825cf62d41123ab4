//! A stable sort by a character-sequence key, as std's `sort_by` on
//! `str` keys orders (lexicographic by code point, equal keys keeping
//! their input order).

use vstd::prelude::*;
use crate::text::{lex_le, lex_le_exec, lemma_lex_total, lemma_lex_trans};

verus! {

/// The keyed items of `v`, viewed.
pub open spec fn keyed_view<T: View>(v: Seq<(Vec<char>, T)>) -> Seq<(Seq<char>, T::V)> {
    v.map_values(|e: (Vec<char>, T)| (e.0@, e.1@))
}

/// `r` is `s` sorted by key, stably, with `p` telling for each position of
/// `r` the position in `s` it came from.
pub open spec fn stable_sort_witness<V>(r: Seq<(Seq<char>, V)>, s: Seq<(Seq<char>, V)>, p: Seq<int>) -> bool {
    &&& r.len() == s.len()
    &&& p.len() == s.len()
    &&& forall|i: int| 0 <= i < p.len() ==> 0 <= #[trigger] p[i] < s.len() && r[i] == s[p[i]]
    &&& forall|i: int, j: int| 0 <= i < j < p.len() ==> #[trigger] p[i] != #[trigger] p[j]
    &&& forall|i: int, j: int| 0 <= i < j < r.len() ==> lex_le(#[trigger] r[i].0, #[trigger] r[j].0)
    &&& forall|i: int, j: int| 0 <= i < j < r.len() && (#[trigger] r[i]).0 == (#[trigger] r[j]).0 ==> p[i] < p[j]
}

/// `r` is a stable sort of `s` by key: a rearrangement of `s` in
/// nondecreasing key order in which items with equal keys keep their order.
pub open spec fn is_stable_sort<V>(r: Seq<(Seq<char>, V)>, s: Seq<(Seq<char>, V)>) -> bool {
    exists|p: Seq<int>| stable_sort_witness(r, s, p)
}

/// `x` placed into `r` after the leading items whose keys are at most its
/// own (in a sorted `r`: after every item of key at most `x`'s).
pub open spec fn insert_by_key<V>(x: (Seq<char>, V), r: Seq<(Seq<char>, V)>) -> Seq<(Seq<char>, V)>
    decreases r.len(),
{
    if r.len() == 0 {
        seq![x]
    } else if lex_le(r[0].0, x.0) {
        seq![r[0]] + insert_by_key(x, r.drop_first())
    } else {
        seq![x] + r
    }
}

/// `s` sorted by key, items of equal key in their order in `s`: each item
/// inserted, in turn, into the sorted items before it.
pub open spec fn sorted_by_key<V>(s: Seq<(Seq<char>, V)>) -> Seq<(Seq<char>, V)>
    decreases s.len(),
{
    if s.len() == 0 {
        Seq::empty()
    } else {
        insert_by_key(s.last(), sorted_by_key(s.drop_last()))
    }
}

/// Inserting at the first position whose key exceeds `x`'s is `insert_by_key`.
proof fn lemma_insert_at<V>(x: (Seq<char>, V), r: Seq<(Seq<char>, V)>, j: int)
    requires
        0 <= j <= r.len(),
        forall|i: int| 0 <= i < j ==> lex_le(#[trigger] r[i].0, x.0),
        j < r.len() ==> !lex_le(r[j].0, x.0),
    ensures
        insert_by_key(x, r) == r.insert(j, x),
    decreases j,
{
    if j == 0 {
        if r.len() == 0 {
            assert(r.insert(0, x) =~= seq![x]);
        } else {
            assert(r.insert(0, x) =~= seq![x] + r);
        }
    } else {
        let t = r.drop_first();
        assert(lex_le(r[0].0, x.0));
        assert forall|i: int| 0 <= i < j - 1 implies lex_le(#[trigger] t[i].0, x.0) by {
            assert(t[i] == r[i + 1]);
        }
        if j < r.len() {
            assert(t[j - 1] == r[j]);
        }
        lemma_insert_at(x, t, j - 1);
        assert(seq![r[0]] + t.insert(j - 1, x) =~= r.insert(j, x));
    }
}

/// The keys of `r` never decrease.
pub open spec fn keys_sorted<V>(r: Seq<(Seq<char>, V)>) -> bool {
    forall|i: int, j: int| 0 <= i < j < r.len() ==> lex_le(#[trigger] r[i].0, #[trigger] r[j].0)
}

/// Inserting adds `x` and keeps everything else.
proof fn lemma_insert_members<V>(x: (Seq<char>, V), r: Seq<(Seq<char>, V)>)
    ensures
        forall|e: (Seq<char>, V)| #[trigger] insert_by_key(x, r).contains(e) ==> e == x || r.contains(e),
        insert_by_key(x, r).len() == r.len() + 1,
    decreases r.len(),
{
    if r.len() > 0 && lex_le(r[0].0, x.0) {
        let t = r.drop_first();
        lemma_insert_members(x, t);
        let q = seq![r[0]] + insert_by_key(x, t);
        assert forall|e: (Seq<char>, V)| #[trigger] q.contains(e) implies e == x || r.contains(e) by {
            let k = choose|k: int| 0 <= k < q.len() && q[k] == e;
            if k == 0 {
                assert(r[0] == e);
            } else {
                assert(insert_by_key(x, t)[k - 1] == e);
                assert(insert_by_key(x, t).contains(e));
                if e != x {
                    let m = choose|m: int| 0 <= m < t.len() && t[m] == e;
                    assert(r[m + 1] == e);
                }
            }
        }
    } else if r.len() > 0 {
        let q = seq![x] + r;
        assert forall|e: (Seq<char>, V)| #[trigger] q.contains(e) implies e == x || r.contains(e) by {
            let k = choose|k: int| 0 <= k < q.len() && q[k] == e;
            if k > 0 {
                assert(r[k - 1] == e);
            }
        }
    } else {
        assert forall|e: (Seq<char>, V)| #[trigger] seq![x].contains(e) implies e == x || r.contains(e) by {
            let k = choose|k: int| 0 <= k < seq![x].len() && seq![x][k] == e;
        }
    }
}

/// Inserting into a sorted sequence keeps it sorted.
proof fn lemma_insert_sorted<V>(x: (Seq<char>, V), r: Seq<(Seq<char>, V)>)
    requires
        keys_sorted(r),
    ensures
        keys_sorted(insert_by_key(x, r)),
    decreases r.len(),
{
    if r.len() > 0 {
        if lex_le(r[0].0, x.0) {
            let t = r.drop_first();
            assert(keys_sorted(t)) by {
                assert forall|i: int, j: int| 0 <= i < j < t.len() implies lex_le(#[trigger] t[i].0, #[trigger] t[j].0) by {
                    assert(t[i] == r[i + 1]);
                    assert(t[j] == r[j + 1]);
                }
            }
            lemma_insert_sorted(x, t);
            lemma_insert_members(x, t);
            let u = insert_by_key(x, t);
            let q = seq![r[0]] + u;
            assert forall|i: int, j: int| 0 <= i < j < q.len() implies lex_le(#[trigger] q[i].0, #[trigger] q[j].0) by {
                if i == 0 {
                    assert(q[j] == u[j - 1]);
                    assert(u.contains(u[j - 1]));
                    if u[j - 1] != x {
                        let m = choose|m: int| 0 <= m < t.len() && t[m] == u[j - 1];
                        assert(t[m] == r[m + 1]);
                    }
                } else {
                    assert(q[i] == u[i - 1]);
                    assert(q[j] == u[j - 1]);
                }
            }
        } else {
            let q = seq![x] + r;
            lemma_lex_total(r[0].0, x.0);
            assert forall|i: int, j: int| 0 <= i < j < q.len() implies lex_le(#[trigger] q[i].0, #[trigger] q[j].0) by {
                if i == 0 {
                    assert(q[j] == r[j - 1]);
                    if j - 1 > 0 {
                        lemma_lex_trans(x.0, r[0].0, r[j - 1].0);
                    }
                } else {
                    assert(q[i] == r[i - 1]);
                    assert(q[j] == r[j - 1]);
                }
            }
        }
    }
}

/// The insertion order is sorted.
pub proof fn lemma_sorted_by_key_sorted<V>(s: Seq<(Seq<char>, V)>)
    ensures
        keys_sorted(sorted_by_key(s)),
    decreases s.len(),
{
    if s.len() > 0 {
        lemma_sorted_by_key_sorted(s.drop_last());
        lemma_insert_sorted(s.last(), sorted_by_key(s.drop_last()));
    }
}

/// Filtering after an insertion into a sorted sequence is inserting into
/// the filtered sequence (or not at all, where `x` is filtered out).
proof fn lemma_filter_insert<V>(x: (Seq<char>, V), t: Seq<(Seq<char>, V)>, keep: spec_fn((Seq<char>, V)) -> bool)
    requires
        keys_sorted(t),
    ensures
        insert_by_key(x, t).filter(keep) == (if keep(x) { insert_by_key(x, t.filter(keep)) } else { t.filter(keep) }),
    decreases t.len(),
{
    broadcast use vstd::seq_lib::group_filter_ensures;
    reveal(Seq::filter);
    let e: Seq<(Seq<char>, V)> = Seq::empty();
    if t.len() == 0 {
        assert(seq![x] =~= seq![x] + e);
        e.lemma_filter_prepend(x, keep);
        assert(e.filter(keep) =~= e);
        if keep(x) {
            assert((seq![x] + e) =~= seq![x]);
        } else {
            assert(e + e =~= e);
        }
    } else {
        let t1 = t.drop_first();
        assert(t =~= seq![t[0]] + t1);
        t1.lemma_filter_prepend(t[0], keep);
        let head = if keep(t[0]) { seq![t[0]] } else { e };
        assert(t.filter(keep) == head + t1.filter(keep));
        if lex_le(t[0].0, x.0) {
            assert(keys_sorted(t1)) by {
                assert forall|i: int, j: int| 0 <= i < j < t1.len() implies lex_le(#[trigger] t1[i].0, #[trigger] t1[j].0) by {
                    assert(t1[i] == t[i + 1]);
                    assert(t1[j] == t[j + 1]);
                }
            }
            lemma_filter_insert(x, t1, keep);
            let u = insert_by_key(x, t1);
            u.lemma_filter_prepend(t[0], keep);
            assert(insert_by_key(x, t).filter(keep) == head + u.filter(keep));
            if keep(x) {
                if keep(t[0]) {
                    let f = t1.filter(keep);
                    assert((seq![t[0]] + f)[0] == t[0]);
                    assert((seq![t[0]] + f).drop_first() =~= f);
                } else {
                    assert(e + insert_by_key(x, t1.filter(keep)) =~= insert_by_key(x, t1.filter(keep)));
                    assert(e + t1.filter(keep) =~= t1.filter(keep));
                }
            }
        } else {
            let r = seq![x] + t;
            t.lemma_filter_prepend(x, keep);
            if keep(x) {
                let f = t.filter(keep);
                if f.len() > 0 {
                    let y = f[0];
                    assert(f.contains(y));
                    t.lemma_filter_contains_rev(keep, y);
                    let m = choose|m: int| 0 <= m < t.len() && t[m] == y;
                    if lex_le(y.0, x.0) {
                        if m > 0 {
                            lemma_lex_trans(t[0].0, t[m].0, x.0);
                        }
                    }
                    assert(!lex_le(y.0, x.0));
                }
            } else {
                assert(e + t.filter(keep) =~= t.filter(keep));
            }
        }
    }
}

/// Sorting commutes with filtering: the items of the sorted sequence that
/// are kept are the sorted kept items.
pub proof fn law_filter_commutes_with_sort<V>(s: Seq<(Seq<char>, V)>, keep: spec_fn((Seq<char>, V)) -> bool)
    ensures
        sorted_by_key(s).filter(keep) == sorted_by_key(s.filter(keep)),
    decreases s.len(),
{
    reveal(Seq::filter);
    if s.len() > 0 {
        let s1 = s.drop_last();
        let x = s.last();
        law_filter_commutes_with_sort(s1, keep);
        lemma_sorted_by_key_sorted(s1);
        lemma_filter_insert(x, sorted_by_key(s1), keep);
        if keep(x) {
            let f = s1.filter(keep).push(x);
            assert(f.drop_last() =~= s1.filter(keep));
            assert(f.last() == x);
        }
    }
}

proof fn lemma_insert_step<V>(r: Seq<(Seq<char>, V)>, s: Seq<(Seq<char>, V)>, p: Seq<int>, j: int)
    requires
        r.len() < s.len(),
        p.len() == r.len(),
        0 <= j <= r.len(),
        forall|i: int| 0 <= i < p.len() ==> 0 <= #[trigger] p[i] < r.len() && r[i] == s[p[i]],
        forall|i: int, m: int| 0 <= i < m < p.len() ==> #[trigger] p[i] != #[trigger] p[m],
        forall|i: int, m: int| 0 <= i < m < r.len() ==> lex_le(#[trigger] r[i].0, #[trigger] r[m].0),
        forall|i: int, m: int| 0 <= i < m < r.len() && (#[trigger] r[i]).0 == (#[trigger] r[m]).0 ==> p[i] < p[m],
        forall|i: int| 0 <= i < j ==> lex_le(#[trigger] r[i].0, s[r.len() as int].0),
        j < r.len() ==> !lex_le(r[j].0, s[r.len() as int].0),
    ensures
        ({
            let k = r.len() as int;
            let r2 = r.insert(j, s[k]);
            let p2 = p.insert(j, k);
            &&& forall|i: int| 0 <= i < p2.len() ==> 0 <= #[trigger] p2[i] < k + 1 && r2[i] == s[p2[i]]
            &&& forall|i: int, m: int| 0 <= i < m < p2.len() ==> #[trigger] p2[i] != #[trigger] p2[m]
            &&& forall|i: int, m: int| 0 <= i < m < r2.len() ==> lex_le(#[trigger] r2[i].0, #[trigger] r2[m].0)
            &&& forall|i: int, m: int| 0 <= i < m < r2.len() && (#[trigger] r2[i]).0 == (#[trigger] r2[m]).0 ==> p2[i] < p2[m]
        }),
{
    let k = r.len() as int;
    let x = s[k];
    let r2 = r.insert(j, x);
    let p2 = p.insert(j, k);
    // Every item from `j` on has a key above `x`'s.
    assert forall|m: int| j <= m < r.len() implies !lex_le(#[trigger] r[m].0, x.0) by {
        if m > j && lex_le(r[m].0, x.0) {
            lemma_lex_trans(r[j].0, r[m].0, x.0);
        }
    }
    assert forall|i: int, m: int| 0 <= i < m < r2.len() implies lex_le(#[trigger] r2[i].0, #[trigger] r2[m].0) by {
        if i < j && m == j {
        } else if i == j && m > j {
            lemma_lex_total(x.0, r[m - 1].0);
        } else if i < j && m > j {
        } else if i > j {
            assert(r2[i] == r[i - 1]);
            assert(r2[m] == r[m - 1]);
        }
    }
    assert forall|i: int, m: int| 0 <= i < m < r2.len() && (#[trigger] r2[i]).0 == (#[trigger] r2[m]).0 implies p2[i] < p2[m] by {
        if i == j && m > j {
            assert(r2[m] == r[m - 1]);
            assert(!lex_le(r[m - 1].0, x.0));
            assert(lex_le(x.0, x.0)) by { lemma_lex_total(x.0, x.0); }
        } else if m == j {
            assert(p2[i] == p[i]);
        } else if i > j {
            assert(p2[i] == p[i - 1]);
            assert(p2[m] == p[m - 1]);
            assert(r2[i] == r[i - 1]);
            assert(r2[m] == r[m - 1]);
        } else if m > j {
            assert(p2[m] == p[m - 1]);
            assert(r2[m] == r[m - 1]);
        }
    }
    assert forall|i: int, m: int| 0 <= i < m < p2.len() implies #[trigger] p2[i] != #[trigger] p2[m] by {
        if i != j && m != j {
            let ii = if i < j { i } else { i - 1 };
            let mm = if m < j { m } else { m - 1 };
            assert(p2[i] == p[ii]);
            assert(p2[m] == p[mm]);
        } else if i == j {
            let mm = m - 1;
            assert(p2[m] == p[mm]);
        } else {
            assert(p2[i] == p[i]);
        }
    }
    assert forall|i: int| 0 <= i < p2.len() implies 0 <= #[trigger] p2[i] < k + 1 && r2[i] == s[p2[i]] by {
        if i < j {
            assert(p2[i] == p[i]);
        } else if i > j {
            assert(p2[i] == p[i - 1]);
            assert(r2[i] == r[i - 1]);
        }
    }
}

/// Where `insert_by_key` places `x` in `r`.
pub open spec fn insert_pos<V>(x: (Seq<char>, V), r: Seq<(Seq<char>, V)>) -> int
    decreases r.len(),
{
    if r.len() == 0 {
        0
    } else if lex_le(r[0].0, x.0) {
        1 + insert_pos(x, r.drop_first())
    } else {
        0
    }
}

proof fn lemma_insert_pos<V>(x: (Seq<char>, V), r: Seq<(Seq<char>, V)>)
    ensures
        0 <= insert_pos(x, r) <= r.len(),
        forall|i: int| 0 <= i < insert_pos(x, r) ==> lex_le(#[trigger] r[i].0, x.0),
        insert_pos(x, r) < r.len() ==> !lex_le(r[insert_pos(x, r)].0, x.0),
    decreases r.len(),
{
    if r.len() > 0 && lex_le(r[0].0, x.0) {
        let t = r.drop_first();
        lemma_insert_pos(x, t);
        assert forall|i: int| 0 <= i < insert_pos(x, r) implies lex_le(#[trigger] r[i].0, x.0) by {
            if i > 0 {
                assert(r[i] == t[i - 1]);
            }
        }
        if insert_pos(x, r) < r.len() {
            assert(r[insert_pos(x, r)] == t[insert_pos(x, t)]);
        }
    }
}

/// The sorted first `k` items of `s`, with the position in `s` each came from.
proof fn lemma_sorted_witness<V>(s: Seq<(Seq<char>, V)>, k: int) -> (p: Seq<int>)
    requires
        0 <= k <= s.len(),
    ensures
        ({
            let r = sorted_by_key(s.take(k));
            &&& r.len() == k
            &&& p.len() == k
            &&& forall|i: int| 0 <= i < p.len() ==> 0 <= #[trigger] p[i] < k && r[i] == s[p[i]]
            &&& forall|i: int, m: int| 0 <= i < m < p.len() ==> #[trigger] p[i] != #[trigger] p[m]
            &&& forall|i: int, m: int| 0 <= i < m < r.len() ==> lex_le(#[trigger] r[i].0, #[trigger] r[m].0)
            &&& forall|i: int, m: int| 0 <= i < m < r.len() && (#[trigger] r[i]).0 == (#[trigger] r[m]).0 ==> p[i] < p[m]
        }),
    decreases k,
{
    if k == 0 {
        Seq::empty()
    } else {
        let p0 = lemma_sorted_witness(s, k - 1);
        let r0 = sorted_by_key(s.take(k - 1));
        let x = s[k - 1];
        assert(s.take(k).drop_last() =~= s.take(k - 1));
        assert(s.take(k).last() == x);
        let j = insert_pos(x, r0);
        lemma_insert_pos(x, r0);
        lemma_insert_at(x, r0, j);
        lemma_insert_step(r0, s, p0, j);
        p0.insert(j, k - 1)
    }
}

/// The order `sorted_by_key` gives is a stable sort of `s`.
pub proof fn law_sorted_is_stable_sort<V>(s: Seq<(Seq<char>, V)>)
    ensures
        is_stable_sort(sorted_by_key(s), s),
{
    let p = lemma_sorted_witness(s, s.len() as int);
    assert(s.take(s.len() as int) =~= s);
    assert(stable_sort_witness(sorted_by_key(s), s, p));
}

/// Sorts `items` by their character keys, stably.
pub fn stable_sort_by_key<T: View>(items: Vec<(Vec<char>, T)>) -> (r: Vec<(Vec<char>, T)>)
    ensures
        keyed_view(r@) == sorted_by_key(keyed_view(items@)),
        is_stable_sort(keyed_view(r@), keyed_view(items@)),
{
    let ghost s = keyed_view(items@);
    let mut rest = items;
    let mut r: Vec<(Vec<char>, T)> = Vec::new();
    let ghost mut k: int = 0;
    while rest.len() > 0
        invariant
            0 <= k <= s.len(),
            keyed_view(rest@) == s.skip(k),
            keyed_view(r@) == sorted_by_key(s.take(k)),
        decreases rest@.len(),
    {
        let ghost old_rest = rest@;
        assert(keyed_view(old_rest).len() == old_rest.len());
        let e = rest.remove(0);
        assert(keyed_view(old_rest)[0] == s[k]);
        assert forall|i: int| 0 <= i < rest@.len() implies keyed_view(rest@)[i] == s.skip(k + 1)[i] by {
            assert(rest@[i] == old_rest[i + 1]);
            assert(keyed_view(old_rest)[i + 1] == s.skip(k)[i + 1]);
        }
        assert(keyed_view(rest@) =~= s.skip(k + 1));
        let ghost rv = keyed_view(r@);
        assert(s[k] == (e.0@, e.1@));
        let mut j: usize = 0;
        while j < r.len() && lex_le_exec(&r[j].0, &e.0)
            invariant
                j <= r@.len(),
                rv == keyed_view(r@),
                forall|i: int| 0 <= i < j ==> lex_le(#[trigger] rv[i].0, e.0@),
            decreases r@.len() - j,
        {
            j = j + 1;
        }
        proof {
            if j < rv.len() {
                assert(rv[j as int].0 == r@[j as int].0@);
            }
            lemma_insert_at(s[k], rv, j as int);
            assert(s.take(k + 1).drop_last() =~= s.take(k));
            assert(s.take(k + 1).last() == s[k]);
        }
        r.insert(j, e);
        assert(keyed_view(r@) =~= rv.insert(j as int, s[k]));
        proof {
            k = k + 1;
        }
    }
    assert(s.take(k) =~= s);
    proof {
        law_sorted_is_stable_sort(s);
    }
    r
}

} // verus!
