//! Stable sorting by an integer key, and searching in order.

use vstd::prelude::*;

verus! {

/// `s` with `x` put behind the last item whose key is not above that of `x`.
pub open spec fn put<T>(s: Seq<T>, x: T, key: spec_fn(T) -> int) -> Seq<T>
    decreases s.len(),
{
    if s.len() > 0 && key(s.last()) > key(x) {
        put(s.drop_last(), x, key).push(s.last())
    } else {
        s.push(x)
    }
}

/// `s` in ascending order of its keys; items with the same key stay in the
/// order that they had.
pub open spec fn arranged<T>(s: Seq<T>, key: spec_fn(T) -> int) -> Seq<T>
    decreases s.len(),
{
    if s.len() == 0 {
        s
    } else {
        put(arranged(s.drop_last(), key), s.last(), key)
    }
}

/// Whether the keys never descend.
pub open spec fn ascending<T>(s: Seq<T>, key: spec_fn(T) -> int) -> bool {
    forall|i: int, j: int| 0 <= i <= j < s.len() ==> key(#[trigger] s[i]) <= key(#[trigger] s[j])
}

/// Putting is inserting at the place that a search from the end finds.
pub proof fn put_inserts<T>(s: Seq<T>, x: T, key: spec_fn(T) -> int, at: int)
    requires
        0 <= at <= s.len(),
        forall|k: int| at <= k < s.len() ==> key(#[trigger] s[k]) > key(x),
        at > 0 ==> key(s[at - 1]) <= key(x),
    ensures
        put(s, x, key) == s.insert(at, x),
    decreases s.len(),
{
    if at < s.len() {
        put_inserts(s.drop_last(), x, key, at);
        assert(s.drop_last().insert(at, x).push(s.last()) =~= s.insert(at, x));
    } else {
        assert(s.push(x) =~= s.insert(at, x));
    }
}

proof fn put_ascends<T>(s: Seq<T>, x: T, key: spec_fn(T) -> int)
    requires
        ascending(s, key),
    ensures
        ascending(put(s, x, key), key),
        put(s, x, key).len() == s.len() + 1,
        put(s, x, key).to_multiset() == s.to_multiset().insert(x),
        put(s, x, key).last() == x || (s.len() > 0 && put(s, x, key).last() == s.last()),
    decreases s.len(),
{
    broadcast use vstd::seq_lib::group_to_multiset_ensures;

    if s.len() > 0 && key(s.last()) > key(x) {
        let t = s.drop_last();
        put_ascends(t, x, key);
        let p = put(t, x, key);
        assert(s =~= t.push(s.last()));
        assert(p.push(s.last()).to_multiset() =~= t.to_multiset().insert(x).insert(s.last()));
        assert(s.to_multiset() =~= t.to_multiset().insert(s.last()));
        assert(t.to_multiset().insert(x).insert(s.last()) =~= t.to_multiset().insert(
            s.last(),
        ).insert(x));
        assert(key(p.last()) <= key(s.last()));
    }
}

/// Arranging gives the same items, in ascending order of their keys.
pub proof fn arranged_ascends<T>(s: Seq<T>, key: spec_fn(T) -> int)
    ensures
        ascending(arranged(s, key), key),
        arranged(s, key).len() == s.len(),
        arranged(s, key).to_multiset() == s.to_multiset(),
    decreases s.len(),
{
    broadcast use vstd::seq_lib::group_to_multiset_ensures;

    if s.len() > 0 {
        arranged_ascends(s.drop_last(), key);
        put_ascends(arranged(s.drop_last(), key), s.last(), key);
        assert(s =~= s.drop_last().push(s.last()));
    }
}

/// Arranging keeps the items, and makes none of them occur twice.
pub proof fn arranged_keeps<T>(s: Seq<T>, key: spec_fn(T) -> int)
    ensures
        forall|x: T| #[trigger] arranged(s, key).contains(x) == s.contains(x),
        s.no_duplicates() ==> arranged(s, key).no_duplicates(),
{
    broadcast use vstd::seq_lib::group_to_multiset_ensures;

    let a = arranged(s, key);
    arranged_ascends(s, key);
    assert forall|x: T| #[trigger] a.contains(x) == s.contains(x) by {
        assert(a.to_multiset().count(x) == s.to_multiset().count(x));
    }
    if s.no_duplicates() {
        s.lemma_multiset_has_no_duplicates();
        a.lemma_multiset_has_no_duplicates_conv();
    }
}

/// The items with one key, in their order.
pub open spec fn with_key<T>(s: Seq<T>, key: spec_fn(T) -> int, k: int) -> Seq<T>
    decreases s.len(),
{
    if s.len() == 0 {
        s
    } else if key(s.last()) == k {
        with_key(s.drop_last(), key, k).push(s.last())
    } else {
        with_key(s.drop_last(), key, k)
    }
}

proof fn put_keeps_order<T>(s: Seq<T>, x: T, key: spec_fn(T) -> int, k: int)
    ensures
        with_key(put(s, x, key), key, k) == if key(x) == k {
            with_key(s, key, k).push(x)
        } else {
            with_key(s, key, k)
        },
    decreases s.len(),
{
    if s.len() > 0 && key(s.last()) > key(x) {
        let t = s.drop_last();
        put_keeps_order(t, x, key, k);
        let p = put(t, x, key);
        assert(p.push(s.last()).drop_last() =~= p);
        if key(x) == k {
            assert(with_key(s, key, k) == with_key(t, key, k));
        }
    } else {
        assert(s.push(x).drop_last() =~= s);
    }
}

/// Arranging is stable: items with the same key stay in the order that they
/// had.
pub proof fn arranged_is_stable<T>(s: Seq<T>, key: spec_fn(T) -> int, k: int)
    ensures
        with_key(arranged(s, key), key, k) == with_key(s, key, k),
    decreases s.len(),
{
    if s.len() > 0 {
        arranged_is_stable(s.drop_last(), key, k);
        put_keeps_order(arranged(s.drop_last(), key), s.last(), key, k);
    }
}

/// The first index at or behind `from` whose item meets `p`, or the length.
pub open spec fn first_from<T>(s: Seq<T>, p: spec_fn(T) -> bool, from: int) -> int
    decreases s.len() - from,
{
    if from >= s.len() {
        s.len() as int
    } else if p(s[from]) {
        from
    } else {
        first_from(s, p, from + 1)
    }
}

/// The first index whose item meets `p`, or the length.
pub open spec fn first<T>(s: Seq<T>, p: spec_fn(T) -> bool) -> int {
    first_from(s, p, 0)
}

/// The index before which no item meets `p`, and whose item does, is the
/// first.
pub proof fn first_is<T>(s: Seq<T>, p: spec_fn(T) -> bool, at: int)
    requires
        0 <= at <= s.len(),
        forall|k: int| 0 <= k < at ==> !p(#[trigger] s[k]),
        at < s.len() ==> p(s[at]),
    ensures
        first(s, p) == at,
{
    first_from_is(s, p, 0, at);
}

proof fn first_from_is<T>(s: Seq<T>, p: spec_fn(T) -> bool, from: int, at: int)
    requires
        0 <= from <= at <= s.len(),
        forall|k: int| from <= k < at ==> !p(#[trigger] s[k]),
        at < s.len() ==> p(s[at]),
    ensures
        first_from(s, p, from) == at,
    decreases at - from,
{
    if from < at {
        first_from_is(s, p, from + 1, at);
    }
}

/// What the first index means.
pub proof fn first_means<T>(s: Seq<T>, p: spec_fn(T) -> bool)
    ensures
        0 <= first(s, p) <= s.len(),
        first(s, p) < s.len() ==> p(s[first(s, p)]),
        forall|k: int| 0 <= k < first(s, p) ==> !p(#[trigger] s[k]),
{
    first_from_means(s, p, 0);
}

proof fn first_from_means<T>(s: Seq<T>, p: spec_fn(T) -> bool, from: int)
    requires
        0 <= from <= s.len(),
    ensures
        from <= first_from(s, p, from) <= s.len(),
        first_from(s, p, from) < s.len() ==> p(s[first_from(s, p, from)]),
        forall|k: int| from <= k < first_from(s, p, from) ==> !p(#[trigger] s[k]),
    decreases s.len() - from,
{
    if from < s.len() && !p(s[from]) {
        first_from_means(s, p, from + 1);
    }
}

} // verus!
