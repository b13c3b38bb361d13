//! Stable insertion sort, specified generically over a strict order.

use vstd::prelude::*;

verus! {

/// `x` placed before the first element of `s` that it strictly precedes
/// (after every element it does not precede).
pub open spec fn insert_sorted<T>(s: Seq<T>, x: T, before: spec_fn(T, T) -> bool) -> Seq<T>
    decreases s.len(),
{
    if s.len() == 0 {
        seq![x]
    } else if before(x, s[0]) {
        seq![x] + s
    } else {
        seq![s[0]] + insert_sorted(s.drop_first(), x, before)
    }
}

/// The stable sort of `s` by the strict order `before`.
pub open spec fn sort_by<T>(s: Seq<T>, before: spec_fn(T, T) -> bool) -> Seq<T>
    decreases s.len(),
{
    if s.len() == 0 {
        s
    } else {
        insert_sorted(sort_by(s.drop_last(), before), s.last(), before)
    }
}

/// No element of `s` strictly precedes an earlier one.
pub open spec fn sorted_by<T>(s: Seq<T>, before: spec_fn(T, T) -> bool) -> bool {
    forall|i: int, j: int| 0 <= i < j < s.len() ==> !before(#[trigger] s[j], #[trigger] s[i])
}

/// `before` is irreflexive and transitive.
pub open spec fn strict_order<T>(before: spec_fn(T, T) -> bool) -> bool {
    &&& forall|a: T| !#[trigger] before(a, a)
    &&& forall|a: T, b: T, c: T| #[trigger] before(a, b) && #[trigger] before(b, c) ==> before(a, c)
}

/// `insert_sorted` inserts at the first index whose element `x` precedes.
pub proof fn lemma_insert_sorted_at<T>(s: Seq<T>, x: T, before: spec_fn(T, T) -> bool, p: int)
    requires
        0 <= p <= s.len(),
        forall|i: int| 0 <= i < p ==> !before(x, #[trigger] s[i]),
        p < s.len() ==> before(x, s[p]),
    ensures
        insert_sorted(s, x, before) == s.insert(p, x),
    decreases s.len(),
{
    if s.len() == 0 {
        assert(s.insert(p, x) =~= seq![x]);
    } else if p == 0 {
        assert(s.insert(0, x) =~= seq![x] + s);
    } else {
        assert forall|i: int| 0 <= i < p - 1 implies !before(x, #[trigger] s.drop_first()[i]) by {
            assert(s.drop_first()[i] == s[i + 1]);
        }
        lemma_insert_sorted_at(s.drop_first(), x, before, p - 1);
        assert(seq![s[0]] + s.drop_first().insert(p - 1, x) =~= s.insert(p, x));
    }
}

/// The first index whose element `x` precedes (or the length).
pub open spec fn insert_pos<T>(s: Seq<T>, x: T, before: spec_fn(T, T) -> bool) -> int
    decreases s.len(),
{
    if s.len() == 0 {
        0
    } else if before(x, s[0]) {
        0
    } else {
        1 + insert_pos(s.drop_first(), x, before)
    }
}

proof fn lemma_insert_pos<T>(s: Seq<T>, x: T, before: spec_fn(T, T) -> bool)
    ensures
        0 <= insert_pos(s, x, before) <= s.len(),
        forall|i: int| 0 <= i < insert_pos(s, x, before) ==> !before(x, #[trigger] s[i]),
        insert_pos(s, x, before) < s.len() ==> before(x, s[insert_pos(s, x, before)]),
        insert_sorted(s, x, before) == s.insert(insert_pos(s, x, before), x),
    decreases s.len(),
{
    if s.len() > 0 && !before(x, s[0]) {
        lemma_insert_pos(s.drop_first(), x, before);
        assert forall|i: int| 0 <= i < insert_pos(s, x, before) implies !before(
            x,
            #[trigger] s[i],
        ) by {
            if i > 0 {
                assert(s[i] == s.drop_first()[i - 1]);
            }
        }
    }
    let p = insert_pos(s, x, before);
    lemma_insert_sorted_at(s, x, before, p);
}

/// Insertion keeps a sequence sorted.
pub proof fn lemma_insert_sorted_sorted<T>(s: Seq<T>, x: T, before: spec_fn(T, T) -> bool)
    requires
        strict_order(before),
        sorted_by(s, before),
    ensures
        sorted_by(insert_sorted(s, x, before), before),
{
    lemma_insert_pos(s, x, before);
    let p = insert_pos(s, x, before);
    let r = s.insert(p, x);
    assert forall|i: int, j: int| 0 <= i < j < r.len() implies !before(
        #[trigger] r[j],
        #[trigger] r[i],
    ) by {
        if i < p && j < p {
            assert(r[i] == s[i] && r[j] == s[j]);
        } else if i < p && j == p {
            assert(r[i] == s[i] && r[j] == x);
        } else if i < p && j > p {
            assert(r[i] == s[i] && r[j] == s[j - 1]);
        } else if i == p {
            assert(r[i] == x && r[j] == s[j - 1]);
            if before(s[j - 1], x) {
                if j - 1 > p {
                    assert(!before(s[j - 1], s[p]));
                }
            }
        } else {
            assert(r[i] == s[i - 1] && r[j] == s[j - 1]);
        }
    }
}

/// `sort_by` yields a sorted sequence.
pub proof fn lemma_sort_by_sorted<T>(s: Seq<T>, before: spec_fn(T, T) -> bool)
    requires
        strict_order(before),
    ensures
        sorted_by(sort_by(s, before), before),
    decreases s.len(),
{
    if s.len() > 0 {
        lemma_sort_by_sorted(s.drop_last(), before);
        lemma_insert_sorted_sorted(sort_by(s.drop_last(), before), s.last(), before);
    }
}

/// `sort_by` yields a permutation of its input.
pub proof fn lemma_sort_by_permutation<T>(s: Seq<T>, before: spec_fn(T, T) -> bool)
    ensures
        sort_by(s, before).to_multiset() == s.to_multiset(),
        sort_by(s, before).len() == s.len(),
    decreases s.len(),
{
    broadcast use vstd::seq_lib::group_to_multiset_ensures;

    if s.len() > 0 {
        let t = sort_by(s.drop_last(), before);
        lemma_sort_by_permutation(s.drop_last(), before);
        lemma_insert_pos(t, s.last(), before);
        vstd::seq_lib::to_multiset_insert(t, insert_pos(t, s.last(), before), s.last());
        assert(s.drop_last().push(s.last()) =~= s);
    }
}

/// One step of `sort_by` over growing prefixes.
pub proof fn lemma_sort_by_step<T>(s: Seq<T>, before: spec_fn(T, T) -> bool, i: int)
    requires
        0 <= i < s.len(),
    ensures
        sort_by(s.take(i + 1), before) == insert_sorted(sort_by(s.take(i), before), s[i], before),
{
    assert(s.take(i + 1).drop_last() =~= s.take(i));
}

/// The elements of `s.filter(pred)` are the elements of `s` that satisfy
/// `pred`.
pub proof fn lemma_filter_members<T>(s: Seq<T>, pred: spec_fn(T) -> bool)
    ensures
        forall|x: T| #[trigger] s.filter(pred).contains(x) <==> s.contains(x) && pred(x),
    decreases s.len(),
{
    reveal(Seq::filter);
    if s.len() > 0 {
        lemma_filter_members(s.drop_last(), pred);
        let f = s.drop_last().filter(pred);
        assert forall|x: T| #[trigger] s.filter(pred).contains(x) <==> s.contains(x) && pred(x) by {
            if s.contains(x) && pred(x) {
                let k = choose|k: int| 0 <= k < s.len() && s[k] == x;
                if k < s.len() - 1 {
                    assert(s.drop_last()[k] == x);
                    assert(s.drop_last().contains(x));
                    assert(f.contains(x));
                    let j = choose|j: int| 0 <= j < f.len() && f[j] == x;
                    if pred(s.last()) {
                        assert(f.push(s.last())[j] == x);
                    }
                } else {
                    assert(f.push(s.last())[f.len() as int] == x);
                }
            }
            if s.filter(pred).contains(x) {
                let j = choose|j: int| 0 <= j < s.filter(pred).len() && s.filter(pred)[j] == x;
                if j < f.len() {
                    if pred(s.last()) {
                        assert(f.push(s.last())[j] == f[j]);
                    }
                    assert(f.contains(x));
                    let k = choose|k: int| 0 <= k < s.drop_last().len() && s.drop_last()[k] == x;
                    assert(s[k] == x);
                } else {
                    assert(x == s.last());
                    assert(s[s.len() - 1] == x);
                }
            }
        }
    }
}

/// Filtering keeps a sequence sorted.
pub proof fn lemma_filter_sorted<T>(
    s: Seq<T>,
    pred: spec_fn(T) -> bool,
    before: spec_fn(T, T) -> bool,
)
    requires
        sorted_by(s, before),
    ensures
        sorted_by(s.filter(pred), before),
    decreases s.len(),
{
    reveal(Seq::filter);
    if s.len() > 0 {
        let d = s.drop_last();
        assert(sorted_by(d, before)) by {
            assert forall|i: int, j: int| 0 <= i < j < d.len() implies !before(
                #[trigger] d[j],
                #[trigger] d[i],
            ) by {
                assert(d[i] == s[i] && d[j] == s[j]);
            }
        }
        lemma_filter_sorted(d, pred, before);
        lemma_filter_members(d, pred);
        let f = d.filter(pred);
        if pred(s.last()) {
            let g = f.push(s.last());
            assert forall|i: int, j: int| 0 <= i < j < g.len() implies !before(
                #[trigger] g[j],
                #[trigger] g[i],
            ) by {
                if j < f.len() {
                    assert(g[i] == f[i] && g[j] == f[j]);
                } else {
                    assert(g[i] == f[i]);
                    assert(f.contains(f[i]));
                    let k = choose|k: int| 0 <= k < d.len() && d[k] == f[i];
                    assert(s[k] == g[i]);
                    assert(g[j] == s[s.len() - 1]);
                }
            }
        }
    }
}

/// `sort_by` keeps exactly the elements of its input.
pub proof fn lemma_sort_by_members<T>(s: Seq<T>, before: spec_fn(T, T) -> bool)
    ensures
        forall|x: T| #[trigger] sort_by(s, before).contains(x) <==> s.contains(x),
{
    broadcast use vstd::seq_lib::group_to_multiset_ensures;

    lemma_sort_by_permutation(s, before);
    assert forall|x: T| #[trigger] sort_by(s, before).contains(x) <==> s.contains(x) by {
        vstd::seq_lib::to_multiset_contains(s, x);
        vstd::seq_lib::to_multiset_contains(sort_by(s, before), x);
    }
}

/// `before` puts any two distinct elements one way or the other.
pub open spec fn total_order<T>(before: spec_fn(T, T) -> bool) -> bool {
    forall|a: T, b: T| a != b ==> #[trigger] before(a, b) || before(b, a)
}

/// Under a strict total order, a sorted sequence is fixed by its elements
/// and their counts.
pub proof fn lemma_sorted_unique<T>(s1: Seq<T>, s2: Seq<T>, before: spec_fn(T, T) -> bool)
    requires
        strict_order(before),
        total_order(before),
        sorted_by(s1, before),
        sorted_by(s2, before),
        s1.to_multiset() == s2.to_multiset(),
    ensures
        s1 == s2,
    decreases s1.len(),
{
    broadcast use vstd::seq_lib::group_to_multiset_ensures;

    assert(s1.len() == s2.len()) by {
        assert(s1.len() == s1.to_multiset().len());
        assert(s2.len() == s2.to_multiset().len());
    }
    if s1.len() > 0 {
        let a = s1[0];
        let b = s2[0];
        assert(s1.contains(a));
        assert(s1.to_multiset().count(a) > 0);
        assert(s2.contains(a));
        assert(s2.contains(b));
        assert(s2.to_multiset().count(b) > 0);
        assert(s1.contains(b));
        let m = choose|m: int| 0 <= m < s2.len() && s2[m] == a;
        let k = choose|k: int| 0 <= k < s1.len() && s1[k] == b;
        if a != b {
            if m > 0 {
                assert(!before(s2[m], s2[0]));
            }
            if k > 0 {
                assert(!before(s1[k], s1[0]));
            }
            assert(before(a, b) || before(b, a));
        }
        let d1 = s1.drop_first();
        let d2 = s2.drop_first();
        assert(s1.remove(0) =~= d1);
        assert(s2.remove(0) =~= d2);
        assert(d1.to_multiset() == s1.to_multiset().remove(a));
        assert(d2.to_multiset() == s2.to_multiset().remove(b));
        assert(sorted_by(d1, before)) by {
            assert forall|i: int, j: int| 0 <= i < j < d1.len() implies !before(
                #[trigger] d1[j],
                #[trigger] d1[i],
            ) by {
                assert(d1[i] == s1[i + 1] && d1[j] == s1[j + 1]);
            }
        }
        assert(sorted_by(d2, before)) by {
            assert forall|i: int, j: int| 0 <= i < j < d2.len() implies !before(
                #[trigger] d2[j],
                #[trigger] d2[i],
            ) by {
                assert(d2[i] == s2[i + 1] && d2[j] == s2[j + 1]);
            }
        }
        lemma_sorted_unique(d1, d2, before);
        assert(s1 =~= seq![a] + d1);
        assert(s2 =~= seq![b] + d2);
    } else {
        assert(s1 =~= s2);
    }
}

/// How often `x` occurs in `s.filter(pred)`: as often as in `s` where it
/// satisfies `pred`, else never.
pub proof fn lemma_filter_count<T>(s: Seq<T>, pred: spec_fn(T) -> bool, x: T)
    ensures
        s.filter(pred).to_multiset().count(x) == if pred(x) {
            s.to_multiset().count(x)
        } else {
            0
        },
    decreases s.len(),
{
    broadcast use vstd::seq_lib::group_to_multiset_ensures;
    broadcast use vstd::seq_lib::group_filter_ensures;
    broadcast use vstd::multiset::group_multiset_axioms;

    if s.len() == 0 {
        assert(s.filter(pred).len() == 0);
        assert(s.filter(pred).to_multiset().len() == 0);
        assert(s.to_multiset().len() == 0);
        assert(s.filter(pred).to_multiset() =~= vstd::multiset::Multiset::<T>::empty());
        assert(s.to_multiset() =~= vstd::multiset::Multiset::<T>::empty());
    } else {
        let d = s.drop_last();
        assert(d.push(s.last()) =~= s);
        lemma_filter_count(d, pred, x);
        d.lemma_filter_push(s.last(), pred);
    }
}

/// Filtering keeps equal element counts equal.
pub proof fn lemma_filter_multiset<T>(s1: Seq<T>, s2: Seq<T>, pred: spec_fn(T) -> bool)
    requires
        s1.to_multiset() == s2.to_multiset(),
    ensures
        s1.filter(pred).to_multiset() == s2.filter(pred).to_multiset(),
{
    assert forall|x: T| #[trigger] s1.filter(pred).to_multiset().count(x) == s2.filter(
        pred,
    ).to_multiset().count(x) by {
        lemma_filter_count(s1, pred, x);
        lemma_filter_count(s2, pred, x);
    }
    assert(s1.filter(pred).to_multiset() =~= s2.filter(pred).to_multiset());
}

/// Filtering by a predicate that every element satisfies changes nothing.
pub proof fn lemma_filter_all<T>(s: Seq<T>, pred: spec_fn(T) -> bool)
    requires
        forall|i: int| 0 <= i < s.len() ==> pred(#[trigger] s[i]),
    ensures
        s.filter(pred) == s,
    decreases s.len(),
{
    reveal(Seq::filter);
    if s.len() > 0 {
        let d = s.drop_last();
        assert forall|i: int| 0 <= i < d.len() implies pred(#[trigger] d[i]) by {
            assert(d[i] == s[i]);
        }
        lemma_filter_all(d, pred);
        assert(pred(s[s.len() - 1]));
        d.lemma_filter_push(s.last(), pred);
        assert(d.push(s.last()) =~= s);
    } else {
        assert(s.filter(pred) =~= s);
    }
}

/// A sorted sequence is its own sort.
pub proof fn lemma_sort_by_sorted_fixed<T>(s: Seq<T>, before: spec_fn(T, T) -> bool)
    requires
        strict_order(before),
        total_order(before),
        sorted_by(s, before),
    ensures
        sort_by(s, before) == s,
{
    lemma_sort_by_permutation(s, before);
    lemma_sort_by_sorted(s, before);
    lemma_sorted_unique(sort_by(s, before), s, before);
}

} // verus!

