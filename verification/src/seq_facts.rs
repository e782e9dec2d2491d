//! Facts about filtering sequences, and about stable sorting by a key, that
//! the listings of the library share.
use vstd::prelude::*;

verus! {

/// Filtering keeps nothing of a sequence none of whose items passes.
proof fn lemma_filter_none<A>(s: Seq<A>, pred: spec_fn(A) -> bool)
    requires
        forall|i: int| 0 <= i < s.len() ==> !pred(#[trigger] s[i]),
    ensures
        s.filter(pred) == Seq::<A>::empty(),
    decreases s.len(),
{
    reveal(Seq::filter);
    if s.len() > 0 {
        lemma_filter_none(s.drop_last(), pred);
    }
}

/// Filtering a one-item sequence.
proof fn lemma_filter_single<A>(x: A, pred: spec_fn(A) -> bool)
    ensures
        seq![x].filter(pred) == (if pred(x) { seq![x] } else { Seq::<A>::empty() }),
{
    reveal_with_fuel(Seq::filter, 2);
    assert(seq![x].drop_last() =~= Seq::<A>::empty());
    assert(Seq::<A>::empty().push(x) =~= seq![x]);
}

/// Filtering keeps every copy of an item that passes and drops every copy of
/// one that does not.
proof fn lemma_filter_count<A>(s: Seq<A>, pred: spec_fn(A) -> bool, x: A)
    ensures
        s.filter(pred).to_multiset().count(x) == (if pred(x) { s.to_multiset().count(x) } else { 0 }),
    decreases s.len(),
{
    broadcast use vstd::seq_lib::group_to_multiset_ensures;
    broadcast use vstd::multiset::group_multiset_axioms;

    if s.len() == 0 {
        reveal(Seq::filter);
        assert(s.filter(pred).len() == 0);
    } else {
        let r = s.drop_last();
        lemma_filter_count(r, pred, x);
        assert(r.push(s.last()) =~= s);
        r.lemma_filter_push(s.last(), pred);
        r.to_multiset_ensures();
        r.filter(pred).to_multiset_ensures();
    }
}

/// The items of `key` equal to `k`.
pub open spec fn keyed<A, K>(key: spec_fn(A) -> K, k: K) -> spec_fn(A) -> bool {
    |a: A| key(a) == k
}

/// `before` is a strict total order on keys.
pub open spec fn strict_total_order<K>(before: spec_fn(K, K) -> bool) -> bool {
    &&& forall|a: K| #![trigger before(a, a)] !before(a, a)
    &&& forall|a: K, b: K, c: K| #![trigger before(a, b), before(b, c)]
        before(a, b) && before(b, c) ==> before(a, c)
    &&& forall|a: K, b: K| #![trigger before(a, b)] a != b ==> before(a, b) || before(b, a)
}

/// No item of `s` stands after an item whose key comes after its own.
pub open spec fn sorted_by<A, K>(s: Seq<A>, key: spec_fn(A) -> K, before: spec_fn(K, K) -> bool) -> bool {
    forall|i: int, j: int| 0 <= i < j < s.len() ==> !before(key(#[trigger] s[j]), key(#[trigger] s[i]))
}

/// `out` is `items` sorted by key, items of equal keys in their first order:
/// it is sorted, and for each key it holds the same items of that key in the same order.
pub open spec fn is_stable_sorting<A, K>(
    out: Seq<A>,
    items: Seq<A>,
    key: spec_fn(A) -> K,
    before: spec_fn(K, K) -> bool,
) -> bool {
    &&& sorted_by(out, key, before)
    &&& forall|k: K| #[trigger] out.filter(keyed(key, k)) == items.filter(keyed(key, k))
}

/// Inserting `x` after every item whose key does not come after its own, and
/// before the first item whose key does, keeps a sequence sorted and stable.
pub proof fn lemma_insert_stable<A, K>(
    s: Seq<A>,
    x: A,
    p: int,
    key: spec_fn(A) -> K,
    before: spec_fn(K, K) -> bool,
)
    requires
        strict_total_order(before),
        sorted_by(s, key, before),
        0 <= p <= s.len(),
        forall|j: int| 0 <= j < p ==> !before(key(x), key(#[trigger] s[j])),
        p < s.len() ==> before(key(x), key(s[p])),
    ensures
        sorted_by(s.insert(p, x), key, before),
        forall|k: K| #[trigger] s.insert(p, x).filter(keyed(key, k)) == (if key(x) == k {
            s.filter(keyed(key, k)).push(x)
        } else {
            s.filter(keyed(key, k))
        }),
{
    let t = s.insert(p, x);
    assert forall|j: int| p <= j < s.len() implies before(key(x), key(#[trigger] s[j])) by {
        if j > p {
            assert(!before(key(s[j]), key(s[p])));
            if key(s[j]) != key(s[p]) {
                assert(before(key(s[p]), key(s[j])));
            }
        }
    }
    assert forall|i: int, j: int| 0 <= i < j < t.len() implies !before(
        key(#[trigger] t[j]),
        key(#[trigger] t[i]),
    ) by {
        if i == p {
            assert(t[j] == s[j - 1]);
            assert(before(key(x), key(s[j - 1])));
            if before(key(s[j - 1]), key(x)) {
                assert(before(key(x), key(x)));
            }
        } else if j == p {
            assert(t[i] == s[i]);
        } else if i < p && j > p {
            assert(t[j] == s[j - 1]);
            assert(t[i] == s[i]);
        } else if j < p {
            assert(t[j] == s[j] && t[i] == s[i]);
        } else {
            assert(t[j] == s[j - 1]);
            assert(t[i] == s[i - 1]);
        }
    }
    let head = s.take(p);
    let tail = s.skip(p);
    assert(t =~= head + seq![x] + tail);
    assert(s =~= head + tail);
    assert forall|k: K| #[trigger] t.filter(keyed(key, k)) == (if key(x) == k {
        s.filter(keyed(key, k)).push(x)
    } else {
        s.filter(keyed(key, k))
    }) by {
        let pred = keyed(key, k);
        Seq::filter_distributes_over_add(head + seq![x], tail, pred);
        Seq::filter_distributes_over_add(head, seq![x], pred);
        Seq::filter_distributes_over_add(head, tail, pred);
        lemma_filter_single(x, pred);
        if key(x) == k {
            assert forall|j: int| 0 <= j < tail.len() implies !pred(#[trigger] tail[j]) by {
                assert(tail[j] == s[p + j]);
                assert(before(key(x), key(s[p + j])));
                if key(s[p + j]) == key(x) {
                    assert(before(key(x), key(x)));
                }
            }
            lemma_filter_none(tail, pred);
            assert(head.filter(pred) + seq![x] + Seq::<A>::empty() =~= (head.filter(pred)
                + Seq::<A>::empty()).push(x));
        } else {
            assert(head.filter(pred) + Seq::<A>::empty() =~= head.filter(pred));
        }
    }
}

/// A sequence with the same items of each key as another holds the same items
/// the same number of times.
pub proof fn lemma_same_keyed_items<A, K>(a: Seq<A>, b: Seq<A>, key: spec_fn(A) -> K)
    requires
        forall|k: K| #[trigger] a.filter(keyed(key, k)) == b.filter(keyed(key, k)),
    ensures
        a.to_multiset() == b.to_multiset(),
{
    assert forall|x: A| a.to_multiset().count(x) == b.to_multiset().count(x) by {
        lemma_filter_count(a, keyed(key, key(x)), x);
        lemma_filter_count(b, keyed(key, key(x)), x);
        assert(a.filter(keyed(key, key(x))) == b.filter(keyed(key, key(x))));
    }
    assert(a.to_multiset() =~= b.to_multiset());
}

/// The first item of a sorted sequence has a key that does not come after the
/// key of the first item of any sequence with the same items of each key.
proof fn lemma_first_is_least<A, K>(a: Seq<A>, b: Seq<A>, key: spec_fn(A) -> K, before: spec_fn(K, K) -> bool)
    requires
        strict_total_order(before),
        sorted_by(a, key, before),
        a.len() > 0,
        b.len() > 0,
        forall|k: K| #[trigger] a.filter(keyed(key, k)) == b.filter(keyed(key, k)),
    ensures
        !before(key(b[0]), key(a[0])),
{
    let k = key(b[0]);
    b.drop_first().lemma_filter_prepend(b[0], keyed(key, k));
    assert(seq![b[0]] + b.drop_first() =~= b);
    assert(b.filter(keyed(key, k))[0] == b[0]);
    assert(a.filter(keyed(key, k)) == b.filter(keyed(key, k)));
    assert(a.filter(keyed(key, k)).contains(b[0]));
    a.lemma_filter_contains_rev(keyed(key, k), b[0]);
    let j = choose|j: int| 0 <= j < a.len() && a[j] == b[0];
    if j > 0 {
        assert(!before(key(a[j]), key(a[0])));
    } else {
        assert(!before(key(a[0]), key(a[0])));
    }
}

proof fn lemma_same_sorting<A, K>(a: Seq<A>, b: Seq<A>, key: spec_fn(A) -> K, before: spec_fn(K, K) -> bool)
    requires
        strict_total_order(before),
        sorted_by(a, key, before),
        sorted_by(b, key, before),
        a.len() == b.len(),
        forall|k: K| #[trigger] a.filter(keyed(key, k)) == b.filter(keyed(key, k)),
    ensures
        a == b,
    decreases a.len(),
{
    if a.len() == 0 {
        assert(a =~= b);
    } else {
        lemma_first_is_least(a, b, key, before);
        lemma_first_is_least(b, a, key, before);
        if key(a[0]) != key(b[0]) {
            assert(before(key(a[0]), key(b[0])) || before(key(b[0]), key(a[0])));
        }
        let m = key(a[0]);
        let a1 = a.drop_first();
        let b1 = b.drop_first();
        assert(seq![a[0]] + a1 =~= a);
        assert(seq![b[0]] + b1 =~= b);
        a1.lemma_filter_prepend(a[0], keyed(key, m));
        b1.lemma_filter_prepend(b[0], keyed(key, m));
        assert(a.filter(keyed(key, m)) == b.filter(keyed(key, m)));
        assert(a.filter(keyed(key, m))[0] == a[0]);
        assert(b.filter(keyed(key, m))[0] == b[0]);
        assert forall|k: K| #[trigger] a1.filter(keyed(key, k)) == b1.filter(keyed(key, k)) by {
            a1.lemma_filter_prepend(a[0], keyed(key, k));
            b1.lemma_filter_prepend(b[0], keyed(key, k));
            assert(a.filter(keyed(key, k)) == b.filter(keyed(key, k)));
            if k == m {
                assert(a1.filter(keyed(key, k)) =~= a.filter(keyed(key, k)).drop_first());
                assert(b1.filter(keyed(key, k)) =~= b.filter(keyed(key, k)).drop_first());
            } else {
                assert(a1.filter(keyed(key, k)) =~= a.filter(keyed(key, k)));
                assert(b1.filter(keyed(key, k)) =~= b.filter(keyed(key, k)));
            }
        }
        assert forall|i: int, j: int| 0 <= i < j < a1.len() implies !before(
            key(#[trigger] a1[j]),
            key(#[trigger] a1[i]),
        ) by {
            assert(a1[i] == a[i + 1] && a1[j] == a[j + 1]);
        }
        assert forall|i: int, j: int| 0 <= i < j < b1.len() implies !before(
            key(#[trigger] b1[j]),
            key(#[trigger] b1[i]),
        ) by {
            assert(b1[i] == b[i + 1] && b1[j] == b[j + 1]);
        }
        lemma_same_sorting(a1, b1, key, before);
        assert(a =~= b);
    }
}

/// A stable sorting of a sequence is unique.
pub proof fn lemma_stable_sorting_unique<A, K>(
    o1: Seq<A>,
    o2: Seq<A>,
    items: Seq<A>,
    key: spec_fn(A) -> K,
    before: spec_fn(K, K) -> bool,
)
    requires
        strict_total_order(before),
        is_stable_sorting(o1, items, key, before),
        is_stable_sorting(o2, items, key, before),
    ensures
        o1 == o2,
{
    broadcast use vstd::seq_lib::group_to_multiset_ensures;

    lemma_same_keyed_items(o1, items, key);
    lemma_same_keyed_items(o2, items, key);
    assert(o1.len() == o1.to_multiset().len());
    assert(o2.len() == o2.to_multiset().len());
    assert forall|k: K| #[trigger] o1.filter(keyed(key, k)) == o2.filter(keyed(key, k)) by {
        assert(o1.filter(keyed(key, k)) == items.filter(keyed(key, k)));
        assert(o2.filter(keyed(key, k)) == items.filter(keyed(key, k)));
    }
    lemma_same_sorting(o1, o2, key, before);
}

} // verus!
