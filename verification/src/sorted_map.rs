//! A map keyed by `u64`, kept as a vector of entries in strictly increasing
//! key order, so that it can be walked from the smallest or the largest key.
use vstd::prelude::*;

verus! {

/// Keys strictly increase along the entries.
pub open spec fn keys_increasing<V>(s: Seq<(u64, V)>) -> bool {
    forall|i: int, j: int| 0 <= i < j < s.len() ==> #[trigger] s[i].0 < #[trigger] s[j].0
}

/// Whether some entry has key `k`.
pub open spec fn has_key<V>(s: Seq<(u64, V)>, k: u64) -> bool {
    exists|i: int| 0 <= i < s.len() && #[trigger] s[i].0 == k
}

/// The map that a list of entries denotes.
pub open spec fn entries_map<V>(s: Seq<(u64, V)>) -> Map<u64, V> {
    Map::new(
        |k: u64| has_key(s, k),
        |k: u64| s[choose|i: int| 0 <= i < s.len() && #[trigger] s[i].0 == k].1,
    )
}

/// In increasing entries, the map holds each entry's value at its key.
pub proof fn lemma_entries_map_at<V>(s: Seq<(u64, V)>, i: int)
    requires
        keys_increasing(s),
        0 <= i < s.len(),
    ensures
        entries_map(s).contains_key(s[i].0),
        entries_map(s)[s[i].0] == s[i].1,
{
    assert(has_key(s, s[i].0));
    let j = choose|j: int| 0 <= j < s.len() && #[trigger] s[j].0 == s[i].0;
    if j < i {
        assert(s[j].0 < s[i].0);
    } else if j > i {
        assert(s[i].0 < s[j].0);
    }
}

/// The number of leading entries whose key is below `k`: in increasing
/// entries, the position where `k` belongs.
pub open spec fn lower_bound<V>(s: Seq<(u64, V)>, k: u64) -> int
    decreases s.len(),
{
    if s.len() == 0 {
        0
    } else if s[0].0 < k {
        1 + lower_bound(s.drop_first(), k)
    } else {
        0
    }
}

/// The entries after `v` is set at `k`: the entry with key `k` is replaced,
/// or a new one goes in where `k` belongs.
pub open spec fn insert_sorted<V>(s: Seq<(u64, V)>, k: u64, v: V) -> Seq<(u64, V)> {
    let p = lower_bound(s, k);
    if p < s.len() && s[p].0 == k {
        s.update(p, (k, v))
    } else {
        s.insert(p, (k, v))
    }
}

/// `lower_bound` is a position of the entries.
pub proof fn lemma_lower_bound_range<V>(s: Seq<(u64, V)>, k: u64)
    ensures
        0 <= lower_bound(s, k) <= s.len(),
    decreases s.len(),
{
    if s.len() > 0 {
        lemma_lower_bound_range(s.drop_first(), k);
    }
}

/// In increasing entries, a position with smaller keys before it and no
/// smaller key at it is `lower_bound`.
pub proof fn lemma_lower_bound_at<V>(s: Seq<(u64, V)>, k: u64, i: int)
    requires
        keys_increasing(s),
        0 <= i <= s.len(),
        forall|j: int| 0 <= j < i ==> #[trigger] s[j].0 < k,
        i < s.len() ==> s[i].0 >= k,
    ensures
        lower_bound(s, k) == i,
    decreases i,
{
    if i > 0 {
        let t = s.drop_first();
        assert(s[0].0 < k);
        assert forall|a: int, b: int| 0 <= a < b < t.len() implies #[trigger] t[a].0 < #[trigger] t[b].0 by {
            assert(s[a + 1].0 < s[b + 1].0);
        }
        assert forall|j: int| 0 <= j < i - 1 implies #[trigger] t[j].0 < k by {
            assert(s[j + 1].0 < k);
        }
        if i - 1 < t.len() {
            assert(t[i - 1] == s[i]);
        }
        lemma_lower_bound_at(t, k, i - 1);
    }
}

/// A map from `u64` keys, ordered by key.
pub struct SortedMap<V> {
    entries: Vec<(u64, V)>,
}

impl<V> SortedMap<V> {
    /// The entries in increasing key order.
    pub closed spec fn spec_entries(&self) -> Seq<(u64, V)> {
        self.entries@
    }

    pub open spec fn wf(&self) -> bool {
        keys_increasing(self.spec_entries())
    }

    /// The map that the entries denote.
    pub open spec fn spec_map(&self) -> Map<u64, V> {
        entries_map(self.spec_entries())
    }

    pub fn new() -> (r: Self)
        ensures
            r.wf(),
            r.spec_entries() == Seq::<(u64, V)>::empty(),
            r.spec_map() == Map::<u64, V>::empty(),
    {
        let r = SortedMap { entries: Vec::new() };
        assert(r.spec_map() =~= Map::<u64, V>::empty());
        r
    }

    /// The number of keys.
    pub fn len(&self) -> (r: usize)
        ensures
            r == self.spec_entries().len(),
    {
        self.entries.len()
    }

    /// The entry at position `i` in key order.
    pub fn entry(&self, i: usize) -> (r: &(u64, V))
        requires
            i < self.spec_entries().len(),
        ensures
            *r == self.spec_entries()[i as int],
    {
        &self.entries[i]
    }

    /// The value stored at `k`, if any.
    pub fn get(&self, k: u64) -> (r: Option<&V>)
        requires
            self.wf(),
        ensures
            r is Some <==> self.spec_map().contains_key(k),
            r matches Some(v) ==> *v == self.spec_map()[k],
    {
        let mut i: usize = 0;
        while i < self.entries.len()
            invariant
                self.wf(),
                i <= self.entries.len(),
                forall|j: int| 0 <= j < i ==> #[trigger] self.entries@[j].0 != k,
            decreases self.entries.len() - i,
        {
            if self.entries[i].0 == k {
                proof {
                    lemma_entries_map_at(self.entries@, i as int);
                }
                return Some(&self.entries[i].1);
            }
            i = i + 1;
        }
        None
    }

    /// Sets the value at `k`, replacing any value already there.
    pub fn insert(&mut self, k: u64, v: V)
        requires
            old(self).wf(),
        ensures
            final(self).wf(),
            final(self).spec_map() == old(self).spec_map().insert(k, v),
            final(self).spec_entries() == insert_sorted(old(self).spec_entries(), k, v),
    {
        let ghost s = self.entries@;
        let mut i: usize = 0;
        while i < self.entries.len() && self.entries[i].0 < k
            invariant
                self.entries@ == s,
                i <= s.len(),
                forall|j: int| 0 <= j < i ==> #[trigger] s[j].0 < k,
            decreases s.len() - i,
        {
            i = i + 1;
        }
        proof {
            lemma_lower_bound_at(s, k, i as int);
        }
        if i < self.entries.len() && self.entries[i].0 == k {
            self.entries.set(i, (k, v));
            let ghost t = self.entries@;
            assert(t == s.update(i as int, (k, v)));
            assert forall|a: int, b: int| 0 <= a < b < t.len() implies #[trigger] t[a].0
                < #[trigger] t[b].0 by {
                assert(s[a].0 < s[b].0);
            }
            assert forall|q: u64| #[trigger] entries_map(t).contains_key(q) <==> entries_map(
                s,
            ).insert(k, v).contains_key(q) by {
                if has_key(t, q) {
                    let j = choose|j: int| 0 <= j < t.len() && #[trigger] t[j].0 == q;
                    assert(s[j].0 == q);
                }
                if has_key(s, q) {
                    let j = choose|j: int| 0 <= j < s.len() && #[trigger] s[j].0 == q;
                    assert(t[j].0 == q);
                }
                if q == k {
                    assert(t[i as int].0 == q);
                }
            }
            assert forall|q: u64| #[trigger] entries_map(t).contains_key(q) implies entries_map(
                t,
            )[q] == entries_map(s).insert(k, v)[q] by {
                let j = choose|j: int| 0 <= j < t.len() && #[trigger] t[j].0 == q;
                lemma_entries_map_at(t, j);
                if j != i {
                    lemma_entries_map_at(s, j);
                }
            }
            assert(entries_map(t) =~= entries_map(s).insert(k, v));
        } else {
            self.entries.insert(i, (k, v));
            let ghost t = self.entries@;
            assert(t == s.insert(i as int, (k, v)));
            assert forall|a: int| i <= a < s.len() implies #[trigger] s[a].0 > k by {
                if a > i {
                    assert(s[i as int].0 < s[a].0);
                }
            }
            assert forall|a: int, b: int| 0 <= a < b < t.len() implies #[trigger] t[a].0
                < #[trigger] t[b].0 by {
                if b < i {
                    assert(s[a].0 < s[b].0);
                } else if a > i {
                    assert(s[a - 1].0 < s[b - 1].0);
                } else if a < i && b > i {
                    assert(s[a].0 < k);
                    assert(s[b - 1].0 > k);
                }
            }
            assert forall|q: u64| #[trigger] entries_map(t).contains_key(q) <==> entries_map(
                s,
            ).insert(k, v).contains_key(q) by {
                if has_key(t, q) {
                    let j = choose|j: int| 0 <= j < t.len() && #[trigger] t[j].0 == q;
                    if j < i {
                        assert(s[j].0 == q);
                    } else if j > i {
                        assert(s[j - 1].0 == q);
                    }
                }
                if has_key(s, q) {
                    let j = choose|j: int| 0 <= j < s.len() && #[trigger] s[j].0 == q;
                    if j < i {
                        assert(t[j].0 == q);
                    } else {
                        assert(t[j + 1].0 == q);
                    }
                }
                if q == k {
                    assert(t[i as int].0 == q);
                }
            }
            assert forall|q: u64| #[trigger] entries_map(t).contains_key(q) implies entries_map(
                t,
            )[q] == entries_map(s).insert(k, v)[q] by {
                let j = choose|j: int| 0 <= j < t.len() && #[trigger] t[j].0 == q;
                lemma_entries_map_at(t, j);
                if j < i {
                    lemma_entries_map_at(s, j);
                } else if j > i {
                    lemma_entries_map_at(s, j - 1);
                }
            }
            assert(entries_map(t) =~= entries_map(s).insert(k, v));
        }
    }
}

} // verus!
