//! Sequence operations that describe the stored tables: lookup by key,
//! insert-or-replace, stable ordering and row limits.
use vstd::prelude::*;

verus! {

/// The index of the first element of `s` that satisfies `p`, or -1.
pub open spec fn first_index<T>(s: Seq<T>, p: spec_fn(T) -> bool) -> int
    decreases s.len(),
{
    if s.len() == 0 {
        -1
    } else if p(s[0]) {
        0
    } else {
        let r = first_index(s.drop_first(), p);
        if r < 0 {
            -1
        } else {
            r + 1
        }
    }
}

/// `first_index` finds the first match, and -1 means that nothing matches.
pub proof fn lemma_first_index<T>(s: Seq<T>, p: spec_fn(T) -> bool)
    ensures
        -1 <= first_index(s, p) < s.len(),
        first_index(s, p) >= 0 ==> p(s[first_index(s, p)]),
        forall|k: int| 0 <= k < first_index(s, p) ==> !p(#[trigger] s[k]),
        first_index(s, p) == -1 ==> forall|k: int| 0 <= k < s.len() ==> !p(#[trigger] s[k]),
    decreases s.len(),
{
    if s.len() > 0 && !p(s[0]) {
        let t = s.drop_first();
        lemma_first_index(t, p);
        assert forall|k: int| 0 <= k < first_index(s, p) implies !p(#[trigger] s[k]) by {
            if k > 0 {
                assert(s[k] == t[k - 1]);
            }
        }
        if first_index(s, p) == -1 {
            assert forall|k: int| 0 <= k < s.len() implies !p(#[trigger] s[k]) by {
                if k > 0 {
                    assert(s[k] == t[k - 1]);
                }
            }
        }
    }
}

/// The first index of a match is the one before which nothing matches.
pub proof fn lemma_first_index_at<T>(s: Seq<T>, p: spec_fn(T) -> bool, i: int)
    requires
        0 <= i < s.len(),
        p(s[i]),
        forall|k: int| 0 <= k < i ==> !p(#[trigger] s[k]),
    ensures
        first_index(s, p) == i,
    decreases i,
{
    if i > 0 {
        let t = s.drop_first();
        assert(!p(s[0]));
        assert forall|k: int| 0 <= k < i - 1 implies !p(#[trigger] t[k]) by {
            assert(t[k] == s[k + 1]);
        }
        assert(t[i - 1] == s[i]);
        lemma_first_index_at(t, p, i - 1);
    }
}

/// Without a match, `first_index` is -1.
pub proof fn lemma_first_index_none<T>(s: Seq<T>, p: spec_fn(T) -> bool)
    requires
        forall|k: int| 0 <= k < s.len() ==> !p(#[trigger] s[k]),
    ensures
        first_index(s, p) == -1,
    decreases s.len(),
{
    if s.len() > 0 {
        let t = s.drop_first();
        assert(!p(s[0]));
        assert forall|k: int| 0 <= k < t.len() implies !p(#[trigger] t[k]) by {
            assert(t[k] == s[k + 1]);
        }
        lemma_first_index_none(t, p);
    }
}

/// Where an element is appended, the first match stays, or is the new
/// element when there was none.
pub proof fn lemma_first_index_push<T>(s: Seq<T>, x: T, p: spec_fn(T) -> bool)
    ensures
        first_index(s.push(x), p) == if first_index(s, p) >= 0 {
            first_index(s, p)
        } else if p(x) {
            s.len() as int
        } else {
            -1
        },
{
    let t = s.push(x);
    lemma_first_index(s, p);
    let i = first_index(s, p);
    if i >= 0 {
        assert forall|k: int| 0 <= k < i implies !p(#[trigger] t[k]) by {
            assert(t[k] == s[k]);
        }
        assert(t[i] == s[i]);
        lemma_first_index_at(t, p, i);
    } else if p(x) {
        assert forall|k: int| 0 <= k < s.len() implies !p(#[trigger] t[k]) by {
            assert(t[k] == s[k]);
        }
        assert(t[s.len() as int] == x);
        lemma_first_index_at(t, p, s.len() as int);
    } else {
        assert forall|k: int| 0 <= k < t.len() implies !p(#[trigger] t[k]) by {
            if k < s.len() {
                assert(t[k] == s[k]);
            }
        }
        lemma_first_index_none(t, p);
    }
}

/// Two sequences that match `p` at the same places have the same first match.
pub proof fn lemma_first_index_same<T>(s: Seq<T>, t: Seq<T>, p: spec_fn(T) -> bool)
    requires
        s.len() == t.len(),
        forall|k: int| 0 <= k < s.len() ==> p(#[trigger] s[k]) == p(t[k]),
    ensures
        first_index(s, p) == first_index(t, p),
{
    lemma_first_index(s, p);
    lemma_first_index(t, p);
    let i = first_index(s, p);
    if i >= 0 {
        assert forall|k: int| 0 <= k < i implies !p(#[trigger] t[k]) by {
            assert(!p(s[k]));
        }
        lemma_first_index_at(t, p, i);
    } else {
        assert forall|k: int| 0 <= k < t.len() implies !p(#[trigger] t[k]) by {
            assert(!p(s[k]));
        }
        lemma_first_index_none(t, p);
    }
}

/// `s` with `x` in place of the first element that satisfies `p`, or with `x`
/// appended when none does (an insert that updates on conflict).
pub open spec fn upsert<T>(s: Seq<T>, x: T, p: spec_fn(T) -> bool) -> Seq<T> {
    let i = first_index(s, p);
    if i >= 0 {
        s.update(i, x)
    } else {
        s.push(x)
    }
}

/// `x` placed into `s` before the first element that it strictly precedes.
pub open spec fn insert_by<T>(s: Seq<T>, x: T, before: spec_fn(T, T) -> bool) -> Seq<T>
    decreases s.len(),
{
    if s.len() == 0 {
        seq![x]
    } else if before(x, s[0]) {
        seq![x] + s
    } else {
        seq![s[0]] + insert_by(s.drop_first(), x, before)
    }
}

/// `s` in the order `before`, elements that tie keeping their order.
pub open spec fn sort_by<T>(s: Seq<T>, before: spec_fn(T, T) -> bool) -> Seq<T>
    decreases s.len(),
{
    if s.len() == 0 {
        s
    } else {
        insert_by(sort_by(s.drop_last(), before), s.last(), before)
    }
}

/// At most the first `n` elements of `s`.
pub open spec fn limit<T>(s: Seq<T>, n: nat) -> Seq<T> {
    if s.len() <= n {
        s
    } else {
        s.take(n as int)
    }
}

/// No element of `s` is strictly preceded by a later one.
pub open spec fn sorted_by<T>(s: Seq<T>, before: spec_fn(T, T) -> bool) -> bool {
    forall|i: int, j: int| 0 <= i < j < s.len() ==> !before(#[trigger] s[j], #[trigger] s[i])
}

/// `before` is a strict weak order: asymmetric, and "not before" is transitive.
pub open spec fn strict_weak_order<T>(before: spec_fn(T, T) -> bool) -> bool {
    &&& forall|a: T, b: T| #[trigger] before(a, b) ==> !before(b, a)
    &&& forall|a: T, b: T, c: T|
        #![trigger before(a, b), before(b, c)]
        !before(a, b) && !before(b, c) ==> !before(a, c)
}

/// Where `insert_by` puts `x`: after every element that it does not precede.
pub proof fn lemma_insert_by_at<T>(s: Seq<T>, x: T, before: spec_fn(T, T) -> bool, i: int)
    requires
        0 <= i <= s.len(),
        forall|k: int| 0 <= k < i ==> !before(x, #[trigger] s[k]),
        i < s.len() ==> before(x, s[i]),
    ensures
        insert_by(s, x, before) == s.take(i).push(x) + s.skip(i),
    decreases s.len(),
{
    if s.len() == 0 {
        assert(s.take(i).push(x) + s.skip(i) =~= seq![x]);
    } else if i == 0 {
        assert(s.take(0).push(x) + s.skip(0) =~= seq![x] + s);
    } else {
        let t = s.drop_first();
        assert forall|k: int| 0 <= k < i - 1 implies !before(x, #[trigger] t[k]) by {
            assert(t[k] == s[k + 1]);
        }
        if i < s.len() {
            assert(t[i - 1] == s[i]);
        }
        lemma_insert_by_at(t, x, before, i - 1);
        assert(seq![s[0]] + (t.take(i - 1).push(x) + t.skip(i - 1)) =~= s.take(i).push(x) + s.skip(i));
    }
}

proof fn lemma_insert_by_elements<T>(s: Seq<T>, x: T, before: spec_fn(T, T) -> bool)
    ensures
        insert_by(s, x, before).len() == s.len() + 1,
        forall|j: int| 0 <= j < s.len() + 1 ==> #[trigger] insert_by(s, x, before)[j] == x
            || s.contains(insert_by(s, x, before)[j]),
    decreases s.len(),
{
    if s.len() > 0 && !before(x, s[0]) {
        let t = s.drop_first();
        lemma_insert_by_elements(t, x, before);
        let r = insert_by(s, x, before);
        assert forall|j: int| 0 <= j < s.len() + 1 implies #[trigger] r[j] == x || s.contains(r[j]) by {
            if j == 0 {
                assert(r[0] == s[0]);
            } else {
                assert(r[j] == insert_by(t, x, before)[j - 1]);
                if insert_by(t, x, before)[j - 1] != x {
                    let k = choose|k: int| 0 <= k < t.len() && t[k] == insert_by(t, x, before)[j - 1];
                    assert(s[k + 1] == t[k]);
                }
            }
        }
    } else if s.len() > 0 {
        let r = insert_by(s, x, before);
        assert forall|j: int| 0 <= j < s.len() + 1 implies #[trigger] r[j] == x || s.contains(r[j]) by {
            if j > 0 {
                assert(r[j] == s[j - 1]);
            }
        }
    }
}

proof fn lemma_insert_by_sorted<T>(s: Seq<T>, x: T, before: spec_fn(T, T) -> bool)
    requires
        strict_weak_order(before),
        sorted_by(s, before),
    ensures
        sorted_by(insert_by(s, x, before), before),
    decreases s.len(),
{
    let r = insert_by(s, x, before);
    if s.len() == 0 {
    } else if before(x, s[0]) {
        assert forall|i: int, j: int| 0 <= i < j < r.len() implies !before(#[trigger] r[j], #[trigger] r[i]) by {
            if i == 0 {
                assert(r[j] == s[j - 1]);
                if j - 1 > 0 {
                    assert(!before(s[j - 1], s[0]));
                }
                assert(!before(s[0], x));
            } else {
                assert(r[i] == s[i - 1]);
                assert(r[j] == s[j - 1]);
            }
        }
    } else {
        let t = s.drop_first();
        assert(sorted_by(t, before)) by {
            assert forall|i: int, j: int| 0 <= i < j < t.len() implies !before(#[trigger] t[j], #[trigger] t[i]) by {
                assert(t[i] == s[i + 1]);
                assert(t[j] == s[j + 1]);
            }
        }
        lemma_insert_by_sorted(t, x, before);
        lemma_insert_by_elements(t, x, before);
        let rt = insert_by(t, x, before);
        assert forall|i: int, j: int| 0 <= i < j < r.len() implies !before(#[trigger] r[j], #[trigger] r[i]) by {
            assert(r[j] == rt[j - 1]);
            if i == 0 {
                assert(r[0] == s[0]);
                if rt[j - 1] != x {
                    let k = choose|k: int| 0 <= k < t.len() && t[k] == rt[j - 1];
                    assert(s[k + 1] == t[k]);
                }
            } else {
                assert(r[i] == rt[i - 1]);
            }
        }
    }
}

/// Under a strict weak order, `sort_by` gives a sorted sequence.
pub proof fn lemma_sort_by_sorted<T>(s: Seq<T>, before: spec_fn(T, T) -> bool)
    requires
        strict_weak_order(before),
    ensures
        sorted_by(sort_by(s, before), before),
    decreases s.len(),
{
    if s.len() > 0 {
        lemma_sort_by_sorted(s.drop_last(), before);
        lemma_insert_by_sorted(sort_by(s.drop_last(), before), s.last(), before);
    }
}

/// `sort_by` keeps the length of `s`.
pub proof fn lemma_sort_by_len<T>(s: Seq<T>, before: spec_fn(T, T) -> bool)
    ensures
        sort_by(s, before).len() == s.len(),
    decreases s.len(),
{
    if s.len() > 0 {
        lemma_sort_by_len(s.drop_last(), before);
        lemma_insert_by_elements(sort_by(s.drop_last(), before), s.last(), before);
    }
}

/// No two distinct elements of `s` are related by `same`.
pub open spec fn unique_by<T>(s: Seq<T>, same: spec_fn(T, T) -> bool) -> bool {
    forall|i: int, j: int| 0 <= i < s.len() && 0 <= j < s.len() && i != j ==> !same(#[trigger] s[i], #[trigger] s[j])
}

/// `same` is symmetric and transitive, as equality of keys is.
pub open spec fn key_relation<T>(same: spec_fn(T, T) -> bool) -> bool {
    &&& forall|a: T, b: T| #[trigger] same(a, b) ==> same(b, a)
    &&& forall|a: T, b: T, c: T| #![trigger same(a, b), same(b, c)] same(a, b) && same(b, c) ==> same(a, c)
}

/// Replacing or adding by key keeps keys unique.
pub proof fn lemma_upsert_unique<T>(s: Seq<T>, x: T, same: spec_fn(T, T) -> bool)
    requires
        unique_by(s, same),
        key_relation(same),
    ensures
        unique_by(upsert(s, x, |y: T| same(x, y)), same),
{
    let p = |y: T| same(x, y);
    lemma_first_index(s, p);
    let i = first_index(s, p);
    let r = upsert(s, x, p);
    assert forall|a: int, b: int| 0 <= a < r.len() && 0 <= b < r.len() && a != b implies !same(#[trigger] r[a], #[trigger] r[b]) by {
        if i >= 0 {
            assert(p(s[i]));
            if a == i {
                assert(!same(s[i], s[b]));
                if same(x, s[b]) {
                    assert(same(s[i], x));
                }
            } else if b == i {
                assert(!same(s[a], s[i]));
                if same(s[a], x) {
                    assert(same(x, s[i]));
                }
            }
        } else {
            if a == s.len() {
                assert(!p(s[b]));
            } else if b == s.len() {
                assert(!p(s[a]));
                if same(s[a], x) {
                    assert(same(x, s[a]));
                }
            }
        }
    }
}

/// Keeping some elements keeps keys unique.
pub proof fn lemma_filter_unique<T>(s: Seq<T>, p: spec_fn(T) -> bool, same: spec_fn(T, T) -> bool)
    requires
        unique_by(s, same),
    ensures
        unique_by(s.filter(p), same),
    decreases s.len(),
{
    reveal(Seq::filter);
    if s.len() > 0 {
        let t = s.drop_last();
        assert(unique_by(t, same)) by {
            assert forall|i: int, j: int| 0 <= i < t.len() && 0 <= j < t.len() && i != j implies !same(#[trigger] t[i], #[trigger] t[j]) by {
                assert(t[i] == s[i]);
                assert(t[j] == s[j]);
            }
        }
        lemma_filter_unique(t, p, same);
        let f = t.filter(p);
        if p(s.last()) {
            let r = f.push(s.last());
            assert forall|i: int, j: int| 0 <= i < r.len() && 0 <= j < r.len() && i != j implies !same(#[trigger] r[i], #[trigger] r[j]) by {
                if i == f.len() {
                    assert(f.contains(f[j]));
                    t.lemma_filter_contains_rev(p, f[j]);
                    let k = choose|k: int| 0 <= k < t.len() && t[k] == f[j];
                    assert(s[k] == t[k]);
                    assert(!same(s[s.len() - 1], s[k]));
                } else if j == f.len() {
                    assert(f.contains(f[i]));
                    t.lemma_filter_contains_rev(p, f[i]);
                    let k = choose|k: int| 0 <= k < t.len() && t[k] == f[i];
                    assert(s[k] == t[k]);
                    assert(!same(s[k], s[s.len() - 1]));
                } else {
                    assert(r[i] == f[i] && r[j] == f[j]);
                }
            }
        }
    }
}

/// Every element of a sorted sequence comes from the input.
pub proof fn lemma_sort_by_elements<T>(s: Seq<T>, before: spec_fn(T, T) -> bool)
    ensures
        forall|j: int| 0 <= j < sort_by(s, before).len() ==> s.contains(#[trigger] sort_by(s, before)[j]),
    decreases s.len(),
{
    if s.len() > 0 {
        let t = s.drop_last();
        lemma_sort_by_elements(t, before);
        lemma_sort_by_len(t, before);
        let st = sort_by(t, before);
        lemma_insert_by_elements(st, s.last(), before);
        assert forall|j: int| 0 <= j < sort_by(s, before).len() implies s.contains(#[trigger] sort_by(s, before)[j]) by {
            let e = sort_by(s, before)[j];
            if e == s.last() {
                assert(s[s.len() - 1] == e);
            } else {
                let k = choose|k: int| 0 <= k < st.len() && st[k] == e;
                assert(t.contains(st[k]));
                let m = choose|m: int| 0 <= m < t.len() && t[m] == e;
                assert(s[m] == e);
            }
        }
    }
}

/// The first `n` elements of a sorted sequence are sorted.
pub proof fn lemma_limit_sorted<T>(s: Seq<T>, n: nat, before: spec_fn(T, T) -> bool)
    requires
        sorted_by(s, before),
    ensures
        sorted_by(limit(s, n), before),
        limit(s, n).len() <= n,
        forall|j: int| 0 <= j < limit(s, n).len() ==> #[trigger] limit(s, n)[j] == s[j],
{
}

/// After an insert-or-replace, the first match of `p` is `x`.
pub proof fn lemma_upsert_read<T>(s: Seq<T>, x: T, p: spec_fn(T) -> bool)
    requires
        p(x),
    ensures
        first_index(upsert(s, x, p), p) >= 0,
        upsert(s, x, p)[first_index(upsert(s, x, p), p)] == x,
{
    lemma_first_index(s, p);
    let i = first_index(s, p);
    let r = upsert(s, x, p);
    let pos = if i >= 0 { i } else { s.len() as int };
    assert forall|k: int| 0 <= k < pos implies !p(#[trigger] r[k]) by {
        assert(r[k] == s[k]);
    }
    lemma_first_index_at(r, p, pos);
}

proof fn lemma_insert_by_multiset<T>(s: Seq<T>, x: T, before: spec_fn(T, T) -> bool)
    ensures
        insert_by(s, x, before).to_multiset() == s.to_multiset().insert(x),
    decreases s.len(),
{
    broadcast use vstd::seq_lib::group_to_multiset_ensures;

    if s.len() == 0 {
        assert(insert_by(s, x, before) =~= Seq::<T>::empty().push(x));
    } else if before(x, s[0]) {
        assert(insert_by(s, x, before) =~= seq![x] + s);
        vstd::seq_lib::lemma_multiset_commutative(seq![x], s);
        assert(seq![x] =~= Seq::<T>::empty().push(x));
    } else {
        let t = s.drop_first();
        lemma_insert_by_multiset(t, x, before);
        vstd::seq_lib::lemma_multiset_commutative(seq![s[0]], insert_by(t, x, before));
        vstd::seq_lib::lemma_multiset_commutative(seq![s[0]], t);
        assert(seq![s[0]] + t =~= s);
        assert(seq![s[0]] =~= Seq::<T>::empty().push(s[0]));
    }
}

/// Sorting keeps every element, as many times as it occurs.
pub proof fn lemma_sort_by_permutation<T>(s: Seq<T>, before: spec_fn(T, T) -> bool)
    ensures
        sort_by(s, before).to_multiset() == s.to_multiset(),
    decreases s.len(),
{
    broadcast use vstd::seq_lib::group_to_multiset_ensures;

    if s.len() > 0 {
        lemma_sort_by_permutation(s.drop_last(), before);
        lemma_insert_by_multiset(sort_by(s.drop_last(), before), s.last(), before);
        assert(s.drop_last().push(s.last()) =~= s);
    }
}

/// Filtering a sequence of one element.
proof fn lemma_filter_single<T>(x: T, p: spec_fn(T) -> bool)
    ensures
        seq![x].filter(p).len() == if p(x) { 1int } else { 0int },
{
    let e = Seq::<T>::empty();
    e.lemma_filter_len(p);
    assert(seq![x] =~= e.push(x));
    e.lemma_filter_push(x, p);
}

proof fn lemma_insert_by_filter_len<T>(s: Seq<T>, x: T, before: spec_fn(T, T) -> bool, p: spec_fn(T) -> bool)
    ensures
        insert_by(s, x, before).filter(p).len() == s.filter(p).len() + if p(x) { 1int } else { 0int },
    decreases s.len(),
{
    lemma_filter_single(x, p);
    if s.len() == 0 {
        s.lemma_filter_len(p);
    } else if before(x, s[0]) {
        Seq::filter_distributes_over_add(seq![x], s, p);
    } else {
        let t = s.drop_first();
        lemma_insert_by_filter_len(t, x, before, p);
        lemma_filter_single(s[0], p);
        Seq::filter_distributes_over_add(seq![s[0]], insert_by(t, x, before), p);
        assert(s =~= seq![s[0]] + t);
        Seq::filter_distributes_over_add(seq![s[0]], t, p);
    }
}

/// Sorting keeps how many elements satisfy `p`.
pub proof fn lemma_sort_by_filter_len<T>(s: Seq<T>, before: spec_fn(T, T) -> bool, p: spec_fn(T) -> bool)
    ensures
        sort_by(s, before).filter(p).len() == s.filter(p).len(),
    decreases s.len(),
{
    if s.len() > 0 {
        lemma_sort_by_filter_len(s.drop_last(), before, p);
        lemma_insert_by_filter_len(sort_by(s.drop_last(), before), s.last(), before, p);
        assert(s.drop_last().push(s.last()) =~= s);
        s.drop_last().lemma_filter_push(s.last(), p);
    }
}

/// Where only the element at `i` satisfies `p`, one element is kept.
pub proof fn lemma_filter_len_one<T>(s: Seq<T>, p: spec_fn(T) -> bool, i: int)
    requires
        0 <= i < s.len(),
        p(s[i]),
        forall|k: int| 0 <= k < s.len() && k != i ==> !p(#[trigger] s[k]),
    ensures
        s.filter(p).len() == 1,
    decreases s.len(),
{
    let d = s.drop_last();
    assert(d.push(s.last()) =~= s);
    d.lemma_filter_push(s.last(), p);
    if i == s.len() - 1 {
        lemma_filter_len_none(d, p);
    } else {
        assert(!p(s.last()));
        lemma_filter_len_one(d, p, i);
    }
}

proof fn lemma_filter_len_none<T>(s: Seq<T>, p: spec_fn(T) -> bool)
    requires
        forall|k: int| 0 <= k < s.len() ==> !p(#[trigger] s[k]),
    ensures
        s.filter(p).len() == 0,
    decreases s.len(),
{
    if s.len() == 0 {
        s.lemma_filter_len(p);
    } else {
        let d = s.drop_last();
        assert(d.push(s.last()) =~= s);
        d.lemma_filter_push(s.last(), p);
        assert(!p(s[s.len() - 1]));
        lemma_filter_len_none(d, p);
    }
}

} // verus!
