//! Spec functions on sequences shared by the stores.
use vstd::prelude::*;

verus! {

/// The first `n` items of `s`, where `n == 0` (like an `n` past the end) means all of them.
pub open spec fn first_n<A>(s: Seq<A>, n: int) -> Seq<A> {
    if n == 0 || n >= s.len() {
        s
    } else {
        s.take(n)
    }
}

/// The items of groups listed in increasing key order, newest group first,
/// each group's items in their stored order.
pub open spec fn newest_first<K, A>(s: Seq<(K, Seq<A>)>) -> Seq<A>
    decreases s.len(),
{
    if s.len() == 0 {
        Seq::empty()
    } else {
        newest_first(s.drop_first()) + s[0].1
    }
}

/// The number of items over all groups.
pub open spec fn total_len<K, A>(s: Seq<(K, Seq<A>)>) -> nat
    decreases s.len(),
{
    if s.len() == 0 {
        0
    } else {
        total_len(s.drop_first()) + s[0].1.len()
    }
}

/// `newest_first` of a suffix is a prefix of `newest_first` of the whole.
pub proof fn lemma_newest_first_suffix<K, A>(s: Seq<(K, Seq<A>)>, k: int)
    requires
        0 <= k <= s.len(),
    ensures
        newest_first(s.subrange(k, s.len() as int)).len() <= newest_first(s).len(),
        newest_first(s).take(newest_first(s.subrange(k, s.len() as int)).len() as int)
            == newest_first(s.subrange(k, s.len() as int)),
    decreases k,
{
    if k == 0 {
        assert(s.subrange(0, s.len() as int) =~= s);
        assert(newest_first(s).take(newest_first(s).len() as int) =~= newest_first(s));
    } else {
        lemma_newest_first_suffix(s.drop_first(), k - 1);
        assert(s.drop_first().subrange(k - 1, s.drop_first().len() as int) =~= s.subrange(
            k,
            s.len() as int,
        ));
        let p = newest_first(s.subrange(k, s.len() as int));
        let w = newest_first(s.drop_first());
        assert(newest_first(s) == w + s[0].1);
        assert((w + s[0].1).take(p.len() as int) =~= w.take(p.len() as int));
    }
}

/// `newest_first` and `total_len` agree on the number of items.
pub proof fn lemma_newest_first_len<K, A>(s: Seq<(K, Seq<A>)>)
    ensures
        newest_first(s).len() == total_len(s),
    decreases s.len(),
{
    if s.len() > 0 {
        lemma_newest_first_len(s.drop_first());
    }
}

/// No key occurs twice.
pub open spec fn keys_distinct<K, V>(s: Seq<(K, V)>) -> bool {
    forall|i: int, j: int| 0 <= i < j < s.len() ==> #[trigger] s[i].0 != #[trigger] s[j].0
}

/// Whether some pair has key `k`.
pub open spec fn assoc_has<K, V>(s: Seq<(K, V)>, k: K) -> bool {
    exists|i: int| 0 <= i < s.len() && #[trigger] s[i].0 == k
}

/// The map that a list of key-value pairs denotes.
pub open spec fn assoc_map<K, V>(s: Seq<(K, V)>) -> Map<K, V> {
    Map::new(
        |k: K| assoc_has(s, k),
        |k: K| s[choose|i: int| 0 <= i < s.len() && #[trigger] s[i].0 == k].1,
    )
}

/// With distinct keys, the map holds each pair's value at its key.
pub proof fn lemma_assoc_at<K, V>(s: Seq<(K, V)>, i: int)
    requires
        keys_distinct(s),
        0 <= i < s.len(),
    ensures
        assoc_map(s).contains_key(s[i].0),
        assoc_map(s)[s[i].0] == s[i].1,
{
    assert(assoc_has(s, s[i].0));
    let j = choose|j: int| 0 <= j < s.len() && #[trigger] s[j].0 == s[i].0;
    if j < i {
        assert(s[j].0 != s[i].0);
    } else if j > i {
        assert(s[i].0 != s[j].0);
    }
}

/// Replacing the value of one pair changes the map at that key only.
pub proof fn lemma_assoc_update<K, V>(s: Seq<(K, V)>, i: int, w: V)
    requires
        keys_distinct(s),
        0 <= i < s.len(),
    ensures
        keys_distinct(s.update(i, (s[i].0, w))),
        assoc_map(s.update(i, (s[i].0, w))) == assoc_map(s).insert(s[i].0, w),
{
    let t = s.update(i, (s[i].0, w));
    assert forall|a: int, b: int| 0 <= a < b < t.len() implies #[trigger] t[a].0 != #[trigger] t[b].0 by {
        assert(s[a].0 != s[b].0);
    }
    assert forall|k: K| #[trigger] assoc_map(t).contains_key(k) <==> assoc_map(s).insert(s[i].0, w).contains_key(k) by {
        if assoc_has(t, k) {
            let j = choose|j: int| 0 <= j < t.len() && #[trigger] t[j].0 == k;
            assert(s[j].0 == k);
        }
        if assoc_has(s, k) {
            let j = choose|j: int| 0 <= j < s.len() && #[trigger] s[j].0 == k;
            assert(t[j].0 == k);
        }
        assert(t[i].0 == s[i].0);
    }
    assert forall|k: K| #[trigger] assoc_map(t).contains_key(k) implies assoc_map(t)[k] == assoc_map(s).insert(s[i].0, w)[k] by {
        let j = choose|j: int| 0 <= j < t.len() && #[trigger] t[j].0 == k;
        lemma_assoc_at(t, j);
        if j != i {
            lemma_assoc_at(s, j);
        }
    }
    assert(assoc_map(t) =~= assoc_map(s).insert(s[i].0, w));
}

/// Inserting a pair with a new key anywhere adds that key to the map.
pub proof fn lemma_assoc_insert<K, V>(s: Seq<(K, V)>, i: int, k: K, w: V)
    requires
        keys_distinct(s),
        0 <= i <= s.len(),
        !assoc_has(s, k),
    ensures
        keys_distinct(s.insert(i, (k, w))),
        assoc_map(s.insert(i, (k, w))) == assoc_map(s).insert(k, w),
{
    let t = s.insert(i, (k, w));
    assert forall|a: int, b: int| 0 <= a < b < t.len() implies #[trigger] t[a].0 != #[trigger] t[b].0 by {
        if b < i {
            assert(s[a].0 != s[b].0);
        } else if a > i {
            assert(s[a - 1].0 != s[b - 1].0);
        } else if a < i && b > i {
            assert(s[a].0 != s[b - 1].0);
        } else if a == i {
            assert(s[b - 1].0 != k);
        } else {
            assert(s[a].0 != k);
        }
    }
    assert forall|q: K| #[trigger] assoc_map(t).contains_key(q) <==> assoc_map(s).insert(k, w).contains_key(q) by {
        if assoc_has(t, q) {
            let j = choose|j: int| 0 <= j < t.len() && #[trigger] t[j].0 == q;
            if j < i {
                assert(s[j].0 == q);
            } else if j > i {
                assert(s[j - 1].0 == q);
            }
        }
        if assoc_has(s, q) {
            let j = choose|j: int| 0 <= j < s.len() && #[trigger] s[j].0 == q;
            if j < i {
                assert(t[j].0 == q);
            } else {
                assert(t[j + 1].0 == q);
            }
        }
        assert(t[i].0 == k);
    }
    assert forall|q: K| #[trigger] assoc_map(t).contains_key(q) implies assoc_map(t)[q] == assoc_map(s).insert(k, w)[q] by {
        let j = choose|j: int| 0 <= j < t.len() && #[trigger] t[j].0 == q;
        lemma_assoc_at(t, j);
        if j < i {
            lemma_assoc_at(s, j);
        } else if j > i {
            lemma_assoc_at(s, j - 1);
        }
    }
    assert(assoc_map(t) =~= assoc_map(s).insert(k, w));
}

/// Removing a pair removes its key from the map.
pub proof fn lemma_assoc_remove<K, V>(s: Seq<(K, V)>, i: int)
    requires
        keys_distinct(s),
        0 <= i < s.len(),
    ensures
        keys_distinct(s.remove(i)),
        assoc_map(s.remove(i)) == assoc_map(s).remove(s[i].0),
{
    let t = s.remove(i);
    assert forall|a: int, b: int| 0 <= a < b < t.len() implies #[trigger] t[a].0 != #[trigger] t[b].0 by {
        if b < i {
            assert(s[a].0 != s[b].0);
        } else if a >= i {
            assert(s[a + 1].0 != s[b + 1].0);
        } else {
            assert(s[a].0 != s[b + 1].0);
        }
    }
    assert forall|q: K| #[trigger] assoc_map(t).contains_key(q) <==> assoc_map(s).remove(s[i].0).contains_key(q) by {
        if assoc_has(t, q) {
            let j = choose|j: int| 0 <= j < t.len() && #[trigger] t[j].0 == q;
            if j < i {
                assert(s[j].0 == q);
                assert(s[j].0 != s[i].0);
            } else {
                assert(s[j + 1].0 == q);
                assert(s[i].0 != s[j + 1].0);
            }
        }
        if assoc_has(s, q) && q != s[i].0 {
            let j = choose|j: int| 0 <= j < s.len() && #[trigger] s[j].0 == q;
            if j < i {
                assert(t[j].0 == q);
            } else {
                assert(t[j - 1].0 == q);
            }
        }
    }
    assert forall|q: K| #[trigger] assoc_map(t).contains_key(q) implies assoc_map(t)[q] == assoc_map(s).remove(s[i].0)[q] by {
        let j = choose|j: int| 0 <= j < t.len() && #[trigger] t[j].0 == q;
        lemma_assoc_at(t, j);
        if j < i {
            lemma_assoc_at(s, j);
        } else {
            lemma_assoc_at(s, j + 1);
        }
    }
    assert(assoc_map(t) =~= assoc_map(s).remove(s[i].0));
}

} // verus!
