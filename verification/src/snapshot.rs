//! Periodic snapshots of the concentration index, keyed by the time they were taken.
use vstd::prelude::*;
use crate::bignat::BigNat;
use crate::principal::{anonymous_principal, parse_principal, principal_bytes};
use std::collections::HashMap;
use vstd::std_specs::iter::IteratorSpec;

verus! {

/// `r` lists the `size` latest snapshots of `m` (all of them when there are
/// fewer), newest first: times strictly decrease, each pair is recorded in
/// `m`, and every time of `m` left out is older than every time listed.
pub open spec fn is_latest(m: Map<u64, nat>, size: int, r: Seq<(u64, nat)>) -> bool {
    &&& r.len() == if size < m.len() { size } else { m.len() as int }
    &&& forall|i: int| 0 <= i < r.len() ==> #[trigger] m.contains_key(r[i].0) && m[r[i].0] == r[i].1
    &&& forall|i: int, j: int| 0 <= i < j < r.len() ==> #[trigger] r[i].0 > #[trigger] r[j].0
    &&& forall|k: u64, i: int|
        #![trigger m.contains_key(k), r[i]]
        m.contains_key(k) && 0 <= i < r.len() && !r.map_values(|e: (u64, nat)| e.0).contains(k)
            ==> k < r[i].0
}

/// Times strictly decrease along the list.
pub open spec fn times_decreasing(s: Seq<u64>) -> bool {
    forall|i: int, j: int| 0 <= i < j < s.len() ==> #[trigger] s[i] > #[trigger] s[j]
}

/// The times of `m`, each once.
fn collect_keys(m: &HashMap<u64, BigNat>) -> (r: Vec<u64>)
    ensures
        r@.to_set() == m@.dom(),
        r@.no_duplicates(),
{
    broadcast use vstd::std_specs::hash::group_hash_axioms;

    let ghost all = vstd::std_specs::hash::spec_keys_iter(m).remaining().unref();
    let mut r: Vec<u64> = Vec::new();
    for k in it: m.keys()
        invariant
            all == vstd::std_specs::hash::spec_keys_iter(m).remaining().unref(),
            all.to_set() == m@.dom(),
            all.no_duplicates(),
            it.seq().unref() == all,
            r@ == all.take(it.index() as int),
    {
        r.push(*k);
    }
    assert(r@ =~= all);
    r
}

/// The times of `m`, newest first.
fn times_newest_first(m: &HashMap<u64, BigNat>) -> (r: Vec<u64>)
    ensures
        times_decreasing(r@),
        r@.to_set() == m@.dom(),
        r@.len() == m@.dom().len(),
{
    let keys = collect_keys(m);
    let mut sorted: Vec<u64> = Vec::new();
    let mut j: usize = 0;
    while j < keys.len()
        invariant
            j <= keys@.len(),
            keys@.no_duplicates(),
            times_decreasing(sorted@),
            sorted@.to_set() == keys@.take(j as int).to_set(),
            sorted@.len() == j,
        decreases keys@.len() - j,
    {
        let k = keys[j];
        let ghost before = sorted@;
        proof {
            if before.contains(k) {
                let x = choose|x: int| 0 <= x < before.len() && before[x] == k;
                assert(before.to_set().contains(k));
                assert(keys@.take(j as int).to_set().contains(k));
                let y = choose|y: int| 0 <= y < j && keys@.take(j as int)[y] == k;
                assert(keys@[y] == keys@[j as int]);
            }
        }
        let mut i: usize = 0;
        while i < sorted.len() && sorted[i] > k
            invariant
                sorted@ == before,
                i <= before.len(),
                forall|x: int| 0 <= x < i ==> #[trigger] before[x] > k,
            decreases before.len() - i,
        {
            i = i + 1;
        }
        sorted.insert(i, k);
        proof {
            let t = sorted@;
            assert(t == before.insert(i as int, k));
            assert forall|x: int| i <= x < before.len() implies #[trigger] before[x] < k by {
                assert(before[i as int] <= k);
                assert(before[i as int] != k);
                if x > i {
                    assert(before[i as int] > before[x]);
                }
            }
            assert forall|a: int, b: int| 0 <= a < b < t.len() implies #[trigger] t[a] > #[trigger] t[b] by {
                if b < i {
                    assert(before[a] > before[b]);
                } else if a > i {
                    assert(before[a - 1] > before[b - 1]);
                } else if a < i && b > i {
                    assert(before[a] > k);
                    assert(before[b - 1] < k);
                } else if a == i {
                    assert(before[b - 1] < k);
                } else {
                    assert(before[a] > k);
                }
            }
            assert(keys@.take(j + 1) =~= keys@.take(j as int).push(k));
            assert(t.to_set() =~= before.to_set().insert(k)) by {
                assert forall|q: u64| #[trigger] t.to_set().contains(q) <==> before.to_set().insert(k).contains(q) by {
                    if t.contains(q) {
                        let x = choose|x: int| 0 <= x < t.len() && t[x] == q;
                        if x < i {
                            assert(before[x] == q);
                        } else if x > i {
                            assert(before[x - 1] == q);
                        }
                    }
                    if before.contains(q) {
                        let x = choose|x: int| 0 <= x < before.len() && before[x] == q;
                        if x < i {
                            assert(t[x] == q);
                        } else {
                            assert(t[x + 1] == q);
                        }
                    }
                    if q == k {
                        assert(t[i as int] == k);
                    }
                }
            }
            keys@.take(j as int).lemma_push_to_set_commute(k);
        }
        j = j + 1;
    }
    proof {
        assert(keys@.take(j as int) =~= keys@);
        assert(sorted@.no_duplicates()) by {
            assert forall|a: int, b: int| 0 <= a < sorted@.len() && 0 <= b < sorted@.len() && a != b implies sorted@[a] != sorted@[b] by {
                if a < b {
                    assert(sorted@[a] > sorted@[b]);
                } else {
                    assert(sorted@[b] > sorted@[a]);
                }
            }
        }
        sorted@.unique_seq_to_set();
    }
    sorted
}

/// The snapshot service's state: where the index comes from and the
/// snapshots taken so far.
pub struct SnapshotStore {
    hhi_canister: Vec<u8>,
    mapper: String,
    data: HashMap<u64, BigNat>,
}

impl SnapshotStore {
    /// The index recorded at each time.
    pub closed spec fn snapshot_map(&self) -> Map<u64, nat> {
        self.data@.map_values(|v: BigNat| v@)
    }

    pub closed spec fn spec_hhi_canister(&self) -> Seq<u8> {
        self.hhi_canister@
    }

    pub closed spec fn spec_mapper(&self) -> Seq<char> {
        self.mapper@
    }

    /// A store with no snapshots, pointing at the anonymous principal.
    pub fn new() -> (r: Self)
        ensures
            r.snapshot_map() == Map::<u64, nat>::empty(),
            r.spec_hhi_canister() == seq![4u8],
            r.spec_mapper() == Seq::<char>::empty(),
    {
        let r = SnapshotStore {
            hhi_canister: anonymous_principal(),
            mapper: String::new(),
            data: HashMap::new(),
        };
        assert(r.snapshot_map() =~= Map::<u64, nat>::empty());
        r
    }

    /// The latest `size` snapshots, newest first.
    pub fn hhis(&self, size: usize) -> (r: Vec<(u64, BigNat)>)
        ensures
            is_latest(self.snapshot_map(), size as int, r@.map_values(|e: (u64, BigNat)| (e.0, e.1@))),
    {
        broadcast use vstd::std_specs::hash::group_hash_axioms;

        let times = times_newest_first(&self.data);
        let ghost m = self.snapshot_map();
        let ghost tv = times@;
        proof {
            assert(m.dom() =~= self.data@.dom());
        }
        let mut r: Vec<(u64, BigNat)> = Vec::new();
        let mut i: usize = 0;
        while i < size && i < times.len()
            invariant
                m == self.snapshot_map(),
                m.dom() == self.data@.dom(),
                tv == times@,
                times_decreasing(tv),
                tv.to_set() == m.dom(),
                tv.len() == m.dom().len(),
                i <= tv.len(),
                i <= size,
                r@.len() == i,
                forall|x: int| 0 <= x < i ==> (#[trigger] r@[x]).0 == tv[x] && r@[x].1@ == m[tv[x]],
            decreases tv.len() - i,
        {
            let k = times[i];
            proof {
                assert(tv.to_set().contains(k));
            }
            let v = self.data.get(&k).unwrap();
            r.push((k, v.duplicate()));
            i = i + 1;
        }
        proof {
            let rv = r@.map_values(|e: (u64, BigNat)| (e.0, e.1@));
            assert(m.len() == tv.len());
            assert forall|x: int| 0 <= x < rv.len() implies #[trigger] m.contains_key(rv[x].0) && m[rv[x].0] == rv[x].1 by {
                assert(r@[x].0 == tv[x]);
                assert(tv.to_set().contains(tv[x]));
            }
            assert forall|a: int, b: int| 0 <= a < b < rv.len() implies #[trigger] rv[a].0 > #[trigger] rv[b].0 by {
                assert(r@[a].0 == tv[a]);
                assert(r@[b].0 == tv[b]);
            }
            assert forall|k: u64, x: int|
                #![trigger m.contains_key(k), rv[x]]
                m.contains_key(k) && 0 <= x < rv.len() && !rv.map_values(|e: (u64, nat)| e.0).contains(k) implies k < rv[x].0 by {
                assert(tv.to_set().contains(k));
                let y = choose|y: int| 0 <= y < tv.len() && tv[y] == k;
                if y < i {
                    assert(rv.map_values(|e: (u64, nat)| e.0)[y] == k);
                }
                assert(r@[x].0 == tv[x]);
                assert(tv[x] > tv[y]);
            }
        }
        r
    }

    /// The number of snapshots.
    pub fn data_points(&self) -> (r: u64)
        ensures
            r == self.snapshot_map().len(),
    {
        proof {
            assert(self.snapshot_map().dom() =~= self.data@.dom());
        }
        self.data.len() as u64
    }

    /// Records the index `value` taken at `time` (replacing one taken at the same time).
    pub fn record(&mut self, time: u64, value: BigNat)
        ensures
            final(self).snapshot_map() == old(self).snapshot_map().insert(time, value@),
            final(self).spec_hhi_canister() == old(self).spec_hhi_canister(),
            final(self).spec_mapper() == old(self).spec_mapper(),
    {
        broadcast use vstd::std_specs::hash::group_hash_axioms;

        let ghost v = value@;
        self.data.insert(time, value);
        assert(self.snapshot_map() =~= old(self).snapshot_map().insert(time, v));
    }

    /// Points the store at the index service `hhi_canister_id` (a principal
    /// in text form; other text is a caller error) and the mapping service
    /// `mapper_canister_id`.
    pub fn setup(&mut self, hhi_canister_id: String, mapper_canister_id: String)
        requires
            principal_bytes(hhi_canister_id@) is Some,
        ensures
            final(self).spec_hhi_canister() == principal_bytes(hhi_canister_id@)->Some_0,
            final(self).spec_mapper() == mapper_canister_id@,
            final(self).snapshot_map() == old(self).snapshot_map(),
    {
        match parse_principal(hhi_canister_id.as_str()) {
            Some(p) => {
                self.hhi_canister = p;
            },
            None => {},
        }
        self.mapper = mapper_canister_id;
    }

    /// Like `setup`, but leaves the store as it is and returns `false` when
    /// `hhi_canister_id` is no principal.
    pub fn try_setup(&mut self, hhi_canister_id: String, mapper_canister_id: String) -> (ok: bool)
        ensures
            ok == (principal_bytes(hhi_canister_id@) is Some),
            ok ==> final(self).spec_hhi_canister() == principal_bytes(hhi_canister_id@)->Some_0
                && final(self).spec_mapper() == mapper_canister_id@,
            !ok ==> final(self).spec_hhi_canister() == old(self).spec_hhi_canister()
                && final(self).spec_mapper() == old(self).spec_mapper(),
            final(self).snapshot_map() == old(self).snapshot_map(),
    {
        if parse_principal(hhi_canister_id.as_str()).is_some() {
            self.setup(hhi_canister_id, mapper_canister_id);
            true
        } else {
            false
        }
    }

    /// The principal bytes of the index service.
    pub fn hhi_canister(&self) -> (r: Vec<u8>)
        ensures
            r@ == self.spec_hhi_canister(),
    {
        self.hhi_canister.clone()
    }

    /// The mapping service's id.
    pub fn mapper(&self) -> (r: String)
        ensures
            r@ == self.spec_mapper(),
    {
        self.mapper.clone()
    }
}

} // verus!
