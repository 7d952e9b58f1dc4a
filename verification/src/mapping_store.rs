//! Token balances built from transfer events: each account's balance, an
//! index of accounts by balance (for the largest holders), and the total supply.
use vstd::prelude::*;
use crate::address::{NULL_ADDRESS, address_bytes, is_null_address, parse_address};
use crate::bignat::{BigNat, nat_add, nat_equal, nat_less, nat_sub, nat_from_u64};
use crate::sequences::{assoc_has, assoc_map, keys_distinct, lemma_assoc_at, lemma_assoc_insert,
    lemma_assoc_remove, lemma_assoc_update, total_len};
use crate::types::TransferEvent;

verus! {

/// An account's balance: 0 when it has none recorded.
pub open spec fn balance_of(accounts: Map<Seq<char>, nat>, a: Seq<char>) -> nat {
    if accounts.contains_key(a) {
        accounts[a]
    } else {
        0
    }
}

/// Each account's balance, kept as a list of pairs with distinct accounts.
pub struct AccountBalances {
    entries: Vec<(String, BigNat)>,
}

impl AccountBalances {
    pub closed spec fn pairs(&self) -> Seq<(Seq<char>, nat)> {
        self.entries@.map_values(|e: (String, BigNat)| (e.0@, e.1@))
    }

    pub open spec fn wf(&self) -> bool {
        keys_distinct(self.pairs())
    }

    /// The balance recorded for each account.
    pub open spec fn spec_map(&self) -> Map<Seq<char>, nat> {
        assoc_map(self.pairs())
    }

    pub fn new() -> (r: Self)
        ensures
            r.wf(),
            r.spec_map() == Map::<Seq<char>, nat>::empty(),
    {
        let r = AccountBalances { entries: Vec::new() };
        assert(r.spec_map() =~= Map::<Seq<char>, nat>::empty());
        r
    }

    /// The balance of `account`; 0 when none is recorded.
    pub fn get(&self, account: &String) -> (r: BigNat)
        requires
            self.wf(),
        ensures
            r@ == balance_of(self.spec_map(), account@),
    {
        let ghost p = self.pairs();
        let mut i: usize = 0;
        while i < self.entries.len()
            invariant
                p == self.pairs(),
                keys_distinct(p),
                p.len() == self.entries@.len(),
                i <= p.len(),
                forall|j: int| 0 <= j < i ==> #[trigger] p[j].0 != account@,
            decreases p.len() - i,
        {
            if self.entries[i].0 == *account {
                proof {
                    assert(p[i as int].0 == self.entries@[i as int].0@);
                    lemma_assoc_at(p, i as int);
                }
                return self.entries[i].1.duplicate();
            }
            assert(p[i as int].0 == self.entries@[i as int].0@);
            i = i + 1;
        }
        assert(!assoc_has(p, account@));
        nat_from_u64(0)
    }

    /// Records `balance` for `account`.
    pub fn set(&mut self, account: String, balance: BigNat)
        requires
            old(self).wf(),
        ensures
            final(self).wf(),
            final(self).spec_map() == old(self).spec_map().insert(account@, balance@),
    {
        let ghost p = self.pairs();
        let ghost a = account@;
        let ghost v = balance@;
        let mut i: usize = 0;
        while i < self.entries.len()
            invariant
                p == self.pairs(),
                p == old(self).pairs(),
                keys_distinct(p),
                p.len() == self.entries@.len(),
                i <= p.len(),
                a == account@,
                v == balance@,
                forall|j: int| 0 <= j < i ==> #[trigger] p[j].0 != a,
            decreases p.len() - i,
        {
            assert(p[i as int].0 == self.entries@[i as int].0@);
            if self.entries[i].0 == account {
                let ghost before = self.entries@;
                self.entries.set(i, (account, balance));
                proof {
                    assert(self.entries@ == before.update(i as int, (account, balance)));
                    assert(p[i as int].0 == a);
                    assert(self.pairs() =~= p.update(i as int, (p[i as int].0, v)));
                    lemma_assoc_update(p, i as int, v);
                }
                return;
            }
            i = i + 1;
        }
        assert(!assoc_has(p, a));
        self.entries.push((account, balance));
        proof {
            assert(self.pairs() =~= p.insert(p.len() as int, (a, v)));
            lemma_assoc_insert(p, p.len() as int, a, v);
        }
    }
}

/// Bucket values strictly increase along the list.
pub open spec fn values_increasing(s: Seq<(nat, Seq<Seq<char>>)>) -> bool {
    forall|i: int, j: int| 0 <= i < j < s.len() ==> #[trigger] s[i].0 < #[trigger] s[j].0
}

/// The holders after `a` is appended to the holders of `v`.
pub open spec fn add_holder(h: Map<nat, Seq<Seq<char>>>, v: nat, a: Seq<char>) -> Map<nat, Seq<Seq<char>>> {
    h.insert(v, (if h.contains_key(v) { h[v] } else { Seq::empty() }).push(a))
}

/// The holders after the first `a` among the holders of `v` is taken out;
/// a value left without holders is dropped.
pub open spec fn remove_holder(h: Map<nat, Seq<Seq<char>>>, v: nat, a: Seq<char>) -> Map<nat, Seq<Seq<char>>> {
    if h.contains_key(v) {
        let l = h[v].remove_value(a);
        if l.len() == 0 {
            h.remove(v)
        } else {
            h.insert(v, l)
        }
    } else {
        h
    }
}

/// The `(account, balance)` pairs of the largest holders: buckets are taken
/// from the largest balance down, whole, while the running count of accounts
/// stays within `n`.
pub open spec fn top_holders(desc: Seq<(nat, Seq<Seq<char>>)>, n: int, count: int) -> Seq<(Seq<char>, nat)>
    decreases desc.len(),
{
    if desc.len() == 0 {
        Seq::empty()
    } else {
        let c = count + desc[0].1.len();
        if c > n {
            Seq::empty()
        } else {
            desc[0].1.map_values(|a: Seq<char>| (a, desc[0].0)) + top_holders(desc.drop_first(), n, c)
        }
    }
}

/// Accounts grouped by balance, in increasing balance order; within a
/// balance, in the order they were added.
pub struct HolderIndex {
    buckets: Vec<(BigNat, Vec<String>)>,
}

/// The view of one bucket.
pub open spec fn bucket_view(e: (BigNat, Vec<String>)) -> (nat, Seq<Seq<char>>) {
    (e.0@, e.1@.map_values(|s: String| s@))
}

impl HolderIndex {
    pub closed spec fn spec_buckets(&self) -> Seq<(nat, Seq<Seq<char>>)> {
        self.buckets@.map_values(|e: (BigNat, Vec<String>)| bucket_view(e))
    }

    pub open spec fn wf(&self) -> bool {
        values_increasing(self.spec_buckets())
    }

    /// The accounts listed under each balance.
    pub open spec fn holders(&self) -> Map<nat, Seq<Seq<char>>> {
        assoc_map(self.spec_buckets())
    }

    pub fn new() -> (r: Self)
        ensures
            r.wf(),
            r.spec_buckets() == Seq::<(nat, Seq<Seq<char>>)>::empty(),
            r.holders() == Map::<nat, Seq<Seq<char>>>::empty(),
    {
        let r = HolderIndex { buckets: Vec::new() };
        assert(r.spec_buckets() =~= Seq::<(nat, Seq<Seq<char>>)>::empty());
        assert(r.holders() =~= Map::<nat, Seq<Seq<char>>>::empty());
        r
    }

    /// The position of the first bucket whose balance is not below `v`.
    fn lower_bound(&self, v: &BigNat) -> (i: usize)
        requires
            self.wf(),
        ensures
            i <= self.spec_buckets().len(),
            forall|j: int| 0 <= j < i ==> #[trigger] self.spec_buckets()[j].0 < v@,
            forall|j: int| i <= j < self.spec_buckets().len() ==> #[trigger] self.spec_buckets()[j].0 >= v@,
    {
        let ghost s = self.spec_buckets();
        let mut i: usize = 0;
        while i < self.buckets.len() && nat_less(&self.buckets[i].0, v)
            invariant
                s == self.spec_buckets(),
                s.len() == self.buckets@.len(),
                values_increasing(s),
                i <= s.len(),
                forall|j: int| 0 <= j < i ==> #[trigger] s[j].0 < v@,
            decreases s.len() - i,
        {
            i = i + 1;
        }
        assert forall|j: int| i <= j < s.len() implies #[trigger] s[j].0 >= v@ by {
            assert(s[i as int].0 >= v@);
            if j > i {
                assert(s[i as int].0 < s[j].0);
            }
        }
        i
    }

    /// Appends `account` to the accounts listed under `v`.
    pub fn add(&mut self, account: String, v: BigNat)
        requires
            old(self).wf(),
        ensures
            final(self).wf(),
            final(self).holders() == add_holder(old(self).holders(), v@, account@),
    {
        let ghost s = self.spec_buckets();
        let ghost a = account@;
        let ghost val = v@;
        proof {
            lemma_increasing_distinct(s);
        }
        let i = self.lower_bound(&v);
        if i < self.buckets.len() && nat_equal(&self.buckets[i].0, &v) {
            let (b, mut l) = self.buckets.remove(i);
            let ghost lv = l@.map_values(|x: String| x@);
            proof {
                assert(bucket_view((b, l)) == s[i as int]);
                lemma_assoc_at(s, i as int);
            }
            l.push(account);
            assert(l@.map_values(|x: String| x@) =~= lv.push(a));
            self.buckets.insert(i, (b, l));
            proof {
                assert(self.spec_buckets() =~= s.update(i as int, (s[i as int].0, lv.push(a))));
                lemma_assoc_update(s, i as int, lv.push(a));
                assert(values_increasing(self.spec_buckets())) by {
                    let t = self.spec_buckets();
                    assert forall|x: int, y: int| 0 <= x < y < t.len() implies #[trigger] t[x].0
                        < #[trigger] t[y].0 by {
                        assert(s[x].0 < s[y].0);
                    }
                }
                assert(self.holders() =~= add_holder(assoc_map(s), val, a));
            }
        } else {
            proof {
                assert forall|j: int| i <= j < s.len() implies #[trigger] s[j].0 > val by {
                    assert(s[i as int].0 != val);
                    assert(s[i as int].0 >= val);
                    if j > i {
                        assert(s[i as int].0 < s[j].0);
                    }
                }
                assert(!assoc_has(s, val)) by {
                    if assoc_has(s, val) {
                        let j = choose|j: int| 0 <= j < s.len() && #[trigger] s[j].0 == val;
                        if j < i {
                            assert(s[j].0 < val);
                        } else {
                            assert(s[j].0 > val);
                        }
                    }
                }
            }
            let mut l: Vec<String> = Vec::new();
            l.push(account);
            assert(l@.map_values(|x: String| x@) =~= seq![a]);
            self.buckets.insert(i, (v, l));
            proof {
                let t = self.spec_buckets();
                assert(t =~= s.insert(i as int, (val, seq![a])));
                lemma_assoc_insert(s, i as int, val, seq![a]);
                assert forall|x: int, y: int| 0 <= x < y < t.len() implies #[trigger] t[x].0
                    < #[trigger] t[y].0 by {
                    if y < i {
                        assert(s[x].0 < s[y].0);
                    } else if x > i {
                        assert(s[x - 1].0 < s[y - 1].0);
                    } else if x < i && y > i {
                        assert(s[x].0 < val);
                        assert(s[y - 1].0 > val);
                    } else if x == i {
                        assert(s[y - 1].0 > val);
                    } else {
                        assert(s[x].0 < val);
                    }
                }
                assert(Seq::<Seq<char>>::empty().push(a) =~= seq![a]);
                assert(self.holders() =~= add_holder(assoc_map(s), val, a));
            }
        }
    }

    /// Takes the first `account` out of the accounts listed under `v`, and
    /// drops `v` when no account is left under it.
    pub fn remove(&mut self, account: &String, v: &BigNat)
        requires
            old(self).wf(),
        ensures
            final(self).wf(),
            final(self).holders() == remove_holder(old(self).holders(), v@, account@),
    {
        let ghost s = self.spec_buckets();
        let ghost a = account@;
        let ghost val = v@;
        proof {
            lemma_increasing_distinct(s);
        }
        let i = self.lower_bound(v);
        if i < self.buckets.len() && nat_equal(&self.buckets[i].0, v) {
            let (b, mut l) = self.buckets.remove(i);
            let ghost lv = l@.map_values(|x: String| x@);
            proof {
                assert(bucket_view((b, l)) == s[i as int]);
                lemma_assoc_at(s, i as int);
                assert(self.buckets@.map_values(|e: (BigNat, Vec<String>)| bucket_view(e)) =~= s.remove(i as int));
            }
            let mut j: usize = 0;
            while j < l.len() && !(l[j] == *account)
                invariant
                    lv == l@.map_values(|x: String| x@),
                    j <= l@.len(),
                    a == account@,
                    forall|k: int| 0 <= k < j ==> #[trigger] lv[k] != a,
                decreases l@.len() - j,
            {
                j = j + 1;
            }
            proof {
                lv.index_of_first_ensures(a);
            }
            if j < l.len() {
                proof {
                    assert(lv[j as int] == a);
                    let idx = lv.index_of_first(a)->Some_0;
                    if idx < j {
                        assert(lv[idx] != a);
                    }
                    if j < idx {
                        assert(lv[j as int] != a);
                    }
                }
                l.remove(j);
                assert(l@.map_values(|x: String| x@) =~= lv.remove_value(a));
            } else {
                assert(!lv.contains(a));
                assert(l@.map_values(|x: String| x@) =~= lv.remove_value(a));
            }
            if l.len() > 0 {
                let ghost nl = l@.map_values(|x: String| x@);
                self.buckets.insert(i, (b, l));
                proof {
                    let t = self.spec_buckets();
                    assert(t =~= s.update(i as int, (s[i as int].0, nl)));
                    lemma_assoc_update(s, i as int, nl);
                    assert forall|x: int, y: int| 0 <= x < y < t.len() implies #[trigger] t[x].0
                        < #[trigger] t[y].0 by {
                        assert(s[x].0 < s[y].0);
                    }
                    assert(self.holders() =~= remove_holder(assoc_map(s), val, a));
                }
            } else {
                proof {
                    let t = self.spec_buckets();
                    lemma_assoc_remove(s, i as int);
                    assert forall|x: int, y: int| 0 <= x < y < t.len() implies #[trigger] t[x].0
                        < #[trigger] t[y].0 by {
                        if y < i {
                            assert(s[x].0 < s[y].0);
                        } else if x >= i {
                            assert(s[x + 1].0 < s[y + 1].0);
                        } else {
                            assert(s[x].0 < s[y + 1].0);
                        }
                    }
                    assert(self.holders() =~= remove_holder(assoc_map(s), val, a));
                }
            }
        } else {
            proof {
                assert forall|j: int| i <= j < s.len() implies #[trigger] s[j].0 > val by {
                    assert(s[i as int].0 != val);
                    assert(s[i as int].0 >= val);
                    if j > i {
                        assert(s[i as int].0 < s[j].0);
                    }
                }
                assert(!assoc_has(s, val)) by {
                    if assoc_has(s, val) {
                        let j = choose|j: int| 0 <= j < s.len() && #[trigger] s[j].0 == val;
                        if j < i {
                            assert(s[j].0 < val);
                        } else {
                            assert(s[j].0 > val);
                        }
                    }
                }
            }
        }
    }

    /// The largest holders: `(account, balance)` pairs from the largest
    /// balance down, taking whole balance groups while the running count of
    /// accounts stays within `n`.
    pub fn top_n(&self, n: u64) -> (r: Vec<(String, BigNat)>)
        ensures
            r@.map_values(|e: (String, BigNat)| (e.0@, e.1@)) == top_holders(
                self.spec_buckets().reverse(),
                n as int,
                0,
            ),
    {
        let ghost s = self.spec_buckets();
        let ghost d = s.reverse();
        let len = self.buckets.len();
        let mut r: Vec<(String, BigNat)> = Vec::new();
        let mut count: u64 = 0;
        let mut i: usize = len;
        assert(d.skip(0) =~= d);
        while i > 0
            invariant
                s == self.spec_buckets(),
                d == s.reverse(),
                len == s.len(),
                i <= len,
                count <= n,
                top_holders(d, n as int, 0) == r@.map_values(|e: (String, BigNat)| (e.0@, e.1@))
                    + top_holders(d.skip(len - i), n as int, count as int),
            decreases i,
        {
            let bucket = &self.buckets[i - 1];
            let blen = bucket.1.len();
            let ghost k = (len - i) as int;
            let ghost rest = d.skip(k);
            let ghost done = r@.map_values(|e: (String, BigNat)| (e.0@, e.1@));
            proof {
                assert(rest[0] == s[i - 1]);
                assert(bucket_view(*bucket) == s[i - 1]);
                assert(rest.drop_first() =~= d.skip(k + 1));
            }
            let next = count.checked_add(blen as u64);
            match next {
                None => {
                    assert(top_holders(rest, n as int, count as int) =~= Seq::empty());
                    assert(done + Seq::<(Seq<char>, nat)>::empty() =~= done);
                    return r;
                },
                Some(c) => {
                    if c > n {
                        assert(top_holders(rest, n as int, count as int) =~= Seq::empty());
                        assert(done + Seq::<(Seq<char>, nat)>::empty() =~= done);
                        return r;
                    }
                    let ghost grp = s[i - 1].1.map_values(|x: Seq<char>| (x, s[i - 1].0));
                    let mut j: usize = 0;
                    while j < blen
                        invariant
                            j <= blen,
                            blen == bucket.1@.len(),
                            bucket_view(*bucket) == s[i - 1],
                            grp == s[i - 1].1.map_values(|x: Seq<char>| (x, s[i - 1].0)),
                            r@.map_values(|e: (String, BigNat)| (e.0@, e.1@)) == done + grp.take(j as int),
                        decreases blen - j,
                    {
                        let ghost before = r@.map_values(|e: (String, BigNat)| (e.0@, e.1@));
                        r.push((bucket.1[j].clone(), bucket.0.duplicate()));
                        assert(grp[j as int] == (bucket.1@[j as int]@, bucket.0@));
                        assert(r@.map_values(|e: (String, BigNat)| (e.0@, e.1@)) =~= before.push(grp[j as int]));
                        assert(grp.take(j + 1) =~= grp.take(j as int).push(grp[j as int]));
                        j = j + 1;
                    }
                    assert(grp.take(j as int) =~= grp);
                    assert(done + grp + top_holders(d.skip(k + 1), n as int, c as int) =~= done + (grp + top_holders(d.skip(k + 1), n as int, c as int)));
                    count = c;
                },
            }
            i = i - 1;
        }
        assert(d.skip(len as int) =~= Seq::<(nat, Seq<Seq<char>>)>::empty());
        assert(r@.map_values(|e: (String, BigNat)| (e.0@, e.1@)) + Seq::<(Seq<char>, nat)>::empty() =~= r@.map_values(|e: (String, BigNat)| (e.0@, e.1@)));
        r
    }
}

proof fn lemma_increasing_distinct(s: Seq<(nat, Seq<Seq<char>>)>)
    requires
        values_increasing(s),
    ensures
        keys_distinct(s),
{
    assert forall|i: int, j: int| 0 <= i < j < s.len() implies #[trigger] s[i].0 != #[trigger] s[j].0 by {
        assert(s[i].0 < s[j].0);
    }
}

} // verus!

verus! {

/// The balance ledger: balances, the index of accounts by balance, and the total supply.
pub struct Ledger {
    pub accounts: Map<Seq<char>, nat>,
    pub holders: Map<nat, Seq<Seq<char>>>,
    pub total_supply: nat,
}

/// The ledger after `a`'s balance is set to `nb`: the account is appended
/// under `nb`, then its first listing under its previous balance is taken out.
pub open spec fn set_balance(l: Ledger, a: Seq<char>, nb: nat) -> Ledger {
    Ledger {
        accounts: l.accounts.insert(a, nb),
        holders: remove_holder(add_holder(l.holders, nb, a), balance_of(l.accounts, a), a),
        total_supply: l.total_supply,
    }
}

/// Whether `text` is the null address.
pub open spec fn spec_is_null(text: Seq<char>) -> bool {
    address_bytes(text) == address_bytes(NULL_ADDRESS@)
}

/// The ledger after a transfer of `v` from `from` to `to`. From the null
/// address it mints (the supply grows); otherwise the sender is debited when
/// its balance covers `v` and left as it is when it does not. To the null
/// address it burns (the supply shrinks when it covers `v`); otherwise the
/// receiver is credited.
pub open spec fn apply_transfer(
    l: Ledger,
    from: Seq<char>,
    to: Seq<char>,
    v: nat,
    from_null: bool,
    to_null: bool,
) -> Ledger {
    let l1 = if from_null {
        Ledger { total_supply: l.total_supply + v, ..l }
    } else if balance_of(l.accounts, from) >= v {
        set_balance(l, from, (balance_of(l.accounts, from) - v) as nat)
    } else {
        l
    };
    if to_null {
        if l1.total_supply >= v {
            Ledger { total_supply: (l1.total_supply - v) as nat, ..l1 }
        } else {
            l1
        }
    } else {
        set_balance(l1, to, balance_of(l1.accounts, to) + v)
    }
}

/// The index agrees with the balances: every listed value has at least one
/// account and lists none twice; an account listed under a value has that
/// balance; and an account with a positive balance is listed under it.
/// (An account whose balance is 0 need not be listed: a first credit of 0
/// records the balance but leaves the account unlisted.)
pub open spec fn index_agrees(l: Ledger) -> bool {
    &&& forall|v: nat| #[trigger]
        l.holders.contains_key(v) ==> l.holders[v].len() > 0 && l.holders[v].no_duplicates()
    &&& forall|v: nat, a: Seq<char>|
        #![trigger l.holders[v].contains(a)]
        l.holders.contains_key(v) && l.holders[v].contains(a) ==> l.accounts.contains_key(a)
            && l.accounts[a] == v
    &&& forall|a: Seq<char>| #[trigger]
        l.accounts.contains_key(a) && l.accounts[a] > 0 ==> l.holders.contains_key(l.accounts[a])
            && l.holders[l.accounts[a]].contains(a)
}

proof fn lemma_push_contains(x: Seq<Seq<char>>, y: Seq<char>, z: Seq<char>)
    ensures
        x.push(y).contains(z) <==> (x.contains(z) || z == y),
{
    if x.contains(z) {
        let i = choose|i: int| 0 <= i < x.len() && x[i] == z;
        assert(x.push(y)[i] == z);
    }
    if z == y {
        assert(x.push(y)[x.len() as int] == z);
    }
    if x.push(y).contains(z) {
        let i = choose|i: int| 0 <= i < x.push(y).len() && x.push(y)[i] == z;
        if i < x.len() {
            assert(x[i] == z);
        }
    }
}

proof fn lemma_push_no_dup(x: Seq<Seq<char>>, y: Seq<char>)
    requires
        x.no_duplicates(),
        !x.contains(y),
    ensures
        x.push(y).no_duplicates(),
{
    let t = x.push(y);
    assert forall|i: int, j: int| 0 <= i < t.len() && 0 <= j < t.len() && i != j implies t[i] != t[j] by {
        if i < x.len() && j < x.len() {
        } else if i < x.len() {
            assert(x[i] == t[i]);
        } else {
            assert(x[j] == t[j]);
        }
    }
}

/// Taking out the first `y` keeps every other item, and removes the only
/// `y` of a list without duplicates.
proof fn lemma_remove_value(x: Seq<Seq<char>>, y: Seq<char>)
    ensures
        forall|z: Seq<char>| z != y ==> (#[trigger] x.remove_value(y).contains(z) <==> x.contains(z)),
        x.remove_value(y).len() == if x.contains(y) { x.len() - 1 } else { x.len() as int },
        x.no_duplicates() ==> x.remove_value(y).no_duplicates() && !x.remove_value(y).contains(y),
{
    x.index_of_first_ensures(y);
    match x.index_of_first(y) {
        Some(idx) => {
            let t = x.remove(idx);
            assert(x.remove_value(y) == t);
            assert forall|z: Seq<char>| z != y implies (#[trigger] t.contains(z) <==> x.contains(z)) by {
                if t.contains(z) {
                    let i = choose|i: int| 0 <= i < t.len() && t[i] == z;
                    if i < idx {
                        assert(x[i] == z);
                    } else {
                        assert(x[i + 1] == z);
                    }
                }
                if x.contains(z) {
                    let i = choose|i: int| 0 <= i < x.len() && x[i] == z;
                    if i < idx {
                        assert(t[i] == z);
                    } else {
                        assert(i != idx);
                        assert(t[i - 1] == z);
                    }
                }
            }
            if x.no_duplicates() {
                assert forall|i: int, j: int| 0 <= i < t.len() && 0 <= j < t.len() && i != j implies t[i] != t[j] by {
                    let a = if i < idx { i } else { i + 1 };
                    let b = if j < idx { j } else { j + 1 };
                    assert(t[i] == x[a]);
                    assert(t[j] == x[b]);
                }
                if t.contains(y) {
                    let i = choose|i: int| 0 <= i < t.len() && t[i] == y;
                    let a = if i < idx { i } else { i + 1 };
                    assert(x[a] == y);
                    assert(a != idx);
                }
            }
        },
        None => {},
    }
}

/// Appending `y` to a list that already holds it once, then taking out the
/// first `y`, leaves a list that holds `y` once.
proof fn lemma_remove_value_after_push(x: Seq<Seq<char>>, y: Seq<char>)
    requires
        x.no_duplicates(),
        x.contains(y),
    ensures
        x.push(y).remove_value(y).contains(y),
        x.push(y).remove_value(y).no_duplicates(),
        x.push(y).remove_value(y).len() == x.len(),
{
    let p = x.push(y);
    x.index_of_first_ensures(y);
    p.index_of_first_ensures(y);
    let idx = x.index_of_first(y)->Some_0;
    let pidx = p.index_of_first(y)->Some_0;
    assert(p[idx] == y);
    if pidx < idx {
        assert(x[pidx] == y);
    }
    assert(pidx == idx);
    let t = p.remove(idx);
    assert(t =~= x.remove(idx).push(y));
    lemma_remove_value(x, y);
    assert(x.remove_value(y) == x.remove(idx));
    lemma_push_contains(x.remove(idx), y, y);
    lemma_push_no_dup(x.remove(idx), y);
}

/// Appending a fresh `y`, then taking out the first `y`, gives back the list.
proof fn lemma_remove_value_after_fresh_push(x: Seq<Seq<char>>, y: Seq<char>)
    requires
        !x.contains(y),
    ensures
        x.push(y).remove_value(y) == x,
{
    let p = x.push(y);
    assert(p[x.len() as int] == y);
    p.index_of_first_ensures(y);
    let pidx = p.index_of_first(y)->Some_0;
    if pidx < x.len() {
        assert(x[pidx] == y);
    }
    assert(p.remove(pidx) =~= x);
}

/// Setting one account's balance keeps the index in agreement with the balances.
pub proof fn law_set_balance_keeps_index(l: Ledger, a: Seq<char>, nb: nat)
    requires
        index_agrees(l),
    ensures
        index_agrees(set_balance(l, a, nb)),
{
    let acc = l.accounts;
    let h = l.holders;
    let ob = balance_of(acc, a);
    let base = if h.contains_key(nb) { h[nb] } else { Seq::<Seq<char>>::empty() };
    let h1 = add_holder(h, nb, a);
    let l2 = set_balance(l, a, nb);
    let h2 = l2.holders;
    let acc2 = l2.accounts;
    assert(h1[nb] == base.push(a));
    assert forall|v: nat| h.contains_key(v) && #[trigger] h[v].contains(a) implies v == ob by {}
    assert(base.no_duplicates());
    if base.contains(a) {
        assert(nb == ob);
    }
    // What each value lists after the update.
    let lo = if h1.contains_key(ob) { h1[ob].remove_value(a) } else { Seq::<Seq<char>>::empty() };
    assert(h1.contains_key(nb));
    if h1.contains_key(ob) {
        lemma_remove_value(h1[ob], a);
    }
    if nb == ob {
        if base.contains(a) {
            lemma_remove_value_after_push(base, a);
        } else {
            lemma_remove_value_after_fresh_push(base, a);
        }
    } else {
        lemma_push_no_dup(base, a);
    }
    lemma_push_contains(base, a, a);
    assert forall|b: Seq<char>| b != a implies (#[trigger] base.push(a).contains(b) <==> base.contains(b)) by {
        lemma_push_contains(base, a, b);
    }
    // Values other than the old and new balance keep their listings.
    assert forall|v: nat| v != nb && v != ob implies (#[trigger] h2.contains_key(v) <==> h.contains_key(v))
        && (h2.contains_key(v) ==> h2[v] == h[v]) by {}
    // First clause.
    assert forall|v: nat| #[trigger] h2.contains_key(v) implies h2[v].len() > 0 && h2[v].no_duplicates() by {
        if v == ob {
            assert(h2[v] == lo);
            if nb != ob {
                assert(h1[ob] == h[ob]);
            }
        } else if v == nb {
            assert(h2[v] == base.push(a));
        }
    }
    // Second clause.
    assert forall|v: nat, b: Seq<char>| h2.contains_key(v) && #[trigger] h2[v].contains(b) implies acc2.contains_key(b)
        && acc2[b] == v by {
        if b == a {
            if v == ob && v != nb {
                assert(h2[v] == lo);
                assert(h1[ob] == h[ob]);
            } else if v != nb {
                assert(h2[v] == h[v]);
            }
        } else {
            if v == ob {
                assert(h2[v] == lo);
                assert(lo.contains(b));
                assert(h1[ob].contains(b));
                if v == nb {
                    assert(base.contains(b));
                } else {
                    assert(h[v].contains(b));
                }
            } else if v == nb {
                assert(h2[v] == base.push(a));
                assert(base.contains(b));
            } else {
                assert(h[v].contains(b));
            }
        }
    }
    // Third clause.
    assert forall|b: Seq<char>| #[trigger] acc2.contains_key(b) && acc2[b] > 0 implies h2.contains_key(acc2[b])
        && h2[acc2[b]].contains(b) by {
        if b == a {
            if nb == ob {
                assert(acc.contains_key(a));
                assert(h[ob].contains(a));
                assert(base.contains(a));
                assert(lo.contains(a));
            }
        } else {
            let w = acc[b];
            assert(acc2[b] == w);
            assert(h.contains_key(w) && h[w].contains(b));
            if w == ob {
                if w == nb {
                    assert(base.contains(b));
                    assert(h1[ob].contains(b));
                } else {
                    assert(h1[ob] == h[ob]);
                }
                assert(lo.contains(b));
            } else if w == nb {
                assert(h2[w] == base.push(a));
            }
        }
    }
}

/// Applying a transfer keeps the index in agreement with the balances.
pub proof fn law_transfer_keeps_index(
    l: Ledger,
    from: Seq<char>,
    to: Seq<char>,
    v: nat,
    from_null: bool,
    to_null: bool,
)
    requires
        index_agrees(l),
    ensures
        index_agrees(apply_transfer(l, from, to, v, from_null, to_null)),
{
    let l1 = if from_null {
        Ledger { total_supply: l.total_supply + v, ..l }
    } else if balance_of(l.accounts, from) >= v {
        set_balance(l, from, (balance_of(l.accounts, from) - v) as nat)
    } else {
        l
    };
    if !from_null && balance_of(l.accounts, from) >= v {
        law_set_balance_keeps_index(l, from, (balance_of(l.accounts, from) - v) as nat);
    }
    assert(index_agrees(l1));
    if !to_null {
        law_set_balance_keeps_index(l1, to, balance_of(l1.accounts, to) + v);
    }
}

/// The state built from transfer events.
pub struct MappingStore {
    account_balances: AccountBalances,
    balances: HolderIndex,
    total_supply: BigNat,
    known_blocks: Vec<u64>,
}

impl MappingStore {
    pub closed spec fn ledger(&self) -> Ledger {
        Ledger {
            accounts: self.account_balances.spec_map(),
            holders: self.balances.holders(),
            total_supply: self.total_supply@,
        }
    }

    /// The balance groups in increasing balance order.
    pub closed spec fn spec_buckets(&self) -> Seq<(nat, Seq<Seq<char>>)> {
        self.balances.spec_buckets()
    }

    pub closed spec fn spec_known_blocks(&self) -> Seq<u64> {
        self.known_blocks@
    }

    pub closed spec fn wf(&self) -> bool {
        &&& self.account_balances.wf()
        &&& self.balances.wf()
    }

    /// The groups list exactly the holders of the ledger, in increasing balance order.
    pub proof fn lemma_buckets_match(&self)
        requires
            self.wf(),
        ensures
            values_increasing(self.spec_buckets()),
            assoc_map(self.spec_buckets()) == self.ledger().holders,
    {
    }

    /// An empty ledger.
    pub fn new() -> (r: Self)
        ensures
            r.wf(),
            r.ledger().accounts == Map::<Seq<char>, nat>::empty(),
            r.ledger().holders == Map::<nat, Seq<Seq<char>>>::empty(),
            r.ledger().total_supply == 0,
            index_agrees(r.ledger()),
            r.spec_buckets() == Seq::<(nat, Seq<Seq<char>>)>::empty(),
            r.spec_known_blocks() == Seq::<u64>::empty(),
    {
        MappingStore {
            account_balances: AccountBalances::new(),
            balances: HolderIndex::new(),
            total_supply: nat_from_u64(0),
            known_blocks: Vec::new(),
        }
    }

    /// The balance of `account`; 0 when it has none.
    pub fn get_account_balance(&self, account: String) -> (r: BigNat)
        requires
            self.wf(),
        ensures
            r@ == balance_of(self.ledger().accounts, account@),
    {
        self.account_balances.get(&account)
    }

    /// The total supply: minted minus burnt.
    pub fn total_supply(&self) -> (r: BigNat)
        ensures
            r@ == self.ledger().total_supply,
    {
        self.total_supply.duplicate()
    }

    /// Whether `block_number` is among the known blocks.
    pub fn known_block(&self, block_number: u64) -> (r: bool)
        ensures
            r == self.spec_known_blocks().contains(block_number),
    {
        let mut i: usize = 0;
        while i < self.known_blocks.len()
            invariant
                i <= self.known_blocks@.len(),
                forall|j: int| 0 <= j < i ==> self.known_blocks@[j] != block_number,
            decreases self.known_blocks@.len() - i,
        {
            if self.known_blocks[i] == block_number {
                return true;
            }
            i = i + 1;
        }
        false
    }

    /// The largest holders with their balances (see `top_holders`).
    pub fn balances_top_n(&self, n: u64) -> (r: Vec<(String, BigNat)>)
        ensures
            r@.map_values(|e: (String, BigNat)| (e.0@, e.1@)) == top_holders(
                self.spec_buckets().reverse(),
                n as int,
                0,
            ),
    {
        self.balances.top_n(n)
    }

    fn update_balance(&mut self, account: String, balance: BigNat)
        requires
            old(self).wf(),
        ensures
            final(self).wf(),
            final(self).ledger() == set_balance(old(self).ledger(), account@, balance@),
            final(self).spec_known_blocks() == old(self).spec_known_blocks(),
    {
        let before = self.account_balances.get(&account);
        self.account_balances.set(account.clone(), balance.duplicate());
        self.balances.add(account.clone(), balance);
        self.balances.remove(&account, &before);
    }

    fn handle_mint(&mut self, amount: &BigNat)
        ensures
            final(self).ledger() == (Ledger { total_supply: old(self).ledger().total_supply + amount@, ..old(self).ledger() }),
            final(self).wf() == old(self).wf(),
            final(self).spec_buckets() == old(self).spec_buckets(),
            final(self).spec_known_blocks() == old(self).spec_known_blocks(),
    {
        self.total_supply = nat_add(&self.total_supply, amount);
    }

    fn handle_burn(&mut self, amount: &BigNat)
        ensures
            final(self).ledger() == (if old(self).ledger().total_supply >= amount@ {
                Ledger { total_supply: (old(self).ledger().total_supply - amount@) as nat, ..old(self).ledger() }
            } else {
                old(self).ledger()
            }),
            final(self).wf() == old(self).wf(),
            final(self).spec_buckets() == old(self).spec_buckets(),
            final(self).spec_known_blocks() == old(self).spec_known_blocks(),
    {
        if !nat_less(&self.total_supply, amount) {
            self.total_supply = nat_sub(&self.total_supply, amount);
        }
    }

    /// Applies a transfer event to the ledger (see `apply_transfer`). Both
    /// addresses must be readable as addresses.
    pub fn update(&mut self, event: TransferEvent)
        requires
            old(self).wf(),
            address_bytes(event.from@) is Some,
            address_bytes(event.to@) is Some,
        ensures
            final(self).wf(),
            final(self).ledger() == apply_transfer(
                old(self).ledger(),
                event.from@,
                event.to@,
                event.value@,
                spec_is_null(event.from@),
                spec_is_null(event.to@),
            ),
            index_agrees(old(self).ledger()) ==> index_agrees(final(self).ledger()),
            final(self).spec_known_blocks() == old(self).spec_known_blocks(),
    {
        proof {
            if index_agrees(self.ledger()) {
                law_transfer_keeps_index(
                    self.ledger(),
                    event.from@,
                    event.to@,
                    event.value@,
                    spec_is_null(event.from@),
                    spec_is_null(event.to@),
                );
            }
        }
        let from = event.from;
        let to = event.to;
        let value = event.value;
        if is_null_address(&from) {
            self.handle_mint(&value);
        } else {
            let from_balance = self.account_balances.get(&from);
            if !nat_less(&from_balance, &value) {
                let rest = nat_sub(&from_balance, &value);
                self.update_balance(from, rest);
            }
        }
        if is_null_address(&to) {
            self.handle_burn(&value);
        } else {
            let to_balance = self.account_balances.get(&to);
            let sum = nat_add(&to_balance, &value);
            self.update_balance(to, sum);
        }
    }

    /// Applies a transfer event when both of its addresses read as addresses;
    /// otherwise leaves the ledger as it is and returns `false`.
    pub fn try_update(&mut self, event: TransferEvent) -> (applied: bool)
        requires
            old(self).wf(),
        ensures
            final(self).wf(),
            applied == (address_bytes(event.from@) is Some && address_bytes(event.to@) is Some),
            applied ==> final(self).ledger() == apply_transfer(
                old(self).ledger(),
                event.from@,
                event.to@,
                event.value@,
                spec_is_null(event.from@),
                spec_is_null(event.to@),
            ),
            !applied ==> final(self).ledger() == old(self).ledger(),
            final(self).spec_known_blocks() == old(self).spec_known_blocks(),
    {
        let from_ok = parse_address(event.from.as_str()).is_some();
        let to_ok = parse_address(event.to.as_str()).is_some();
        if from_ok && to_ok {
            self.update(event);
            true
        } else {
            false
        }
    }
}


/// The largest-holders list never holds more than `n - count` pairs.
pub proof fn law_top_holders_within(desc: Seq<(nat, Seq<Seq<char>>)>, n: int, count: int)
    requires
        0 <= count <= n,
    ensures
        top_holders(desc, n, count).len() <= n - count,
    decreases desc.len(),
{
    if desc.len() > 0 {
        let c = count + desc[0].1.len();
        if c <= n {
            law_top_holders_within(desc.drop_first(), n, c);
        }
    }
}

/// Every pair of the largest-holders list comes from a group of `desc`.
proof fn lemma_top_holders_from_groups(desc: Seq<(nat, Seq<Seq<char>>)>, n: int, count: int, k: int)
    requires
        0 <= k < top_holders(desc, n, count).len(),
    ensures
        exists|i: int|
            0 <= i < desc.len() && #[trigger] desc[i].0 == top_holders(desc, n, count)[k].1
                && desc[i].1.contains(top_holders(desc, n, count)[k].0),
    decreases desc.len(),
{
    let c = count + desc[0].1.len();
    let g = desc[0].1.map_values(|a: Seq<char>| (a, desc[0].0));
    let rest = top_holders(desc.drop_first(), n, c);
    assert(top_holders(desc, n, count) == g + rest);
    if k < g.len() {
        assert(desc[0].1[k] == top_holders(desc, n, count)[k].0);
        assert(desc[0].0 == top_holders(desc, n, count)[k].1);
    } else {
        lemma_top_holders_from_groups(desc.drop_first(), n, c, k - g.len());
        assert(top_holders(desc, n, count)[k] == rest[k - g.len()]);
        let i = choose|i: int|
            0 <= i < desc.drop_first().len() && #[trigger] desc.drop_first()[i].0 == rest[k - g.len()].1
                && desc.drop_first()[i].1.contains(rest[k - g.len()].0);
        assert(desc[i + 1] == desc.drop_first()[i]);
    }
}

impl MappingStore {
    /// While the index agrees with the balances, the largest-holders list
    /// reports each account with its recorded balance, and holds at most `n` pairs.
    pub proof fn law_top_holders_report_balances(&self, n: nat, k: int)
        requires
            self.wf(),
            index_agrees(self.ledger()),
            0 <= k < top_holders(self.spec_buckets().reverse(), n as int, 0).len(),
        ensures
            ({
                let p = top_holders(self.spec_buckets().reverse(), n as int, 0)[k];
                self.ledger().accounts.contains_key(p.0) && self.ledger().accounts[p.0] == p.1
            }),
            top_holders(self.spec_buckets().reverse(), n as int, 0).len() <= n,
    {
        let s = self.spec_buckets();
        let d = s.reverse();
        law_top_holders_within(d, n as int, 0);
        lemma_top_holders_from_groups(d, n as int, 0, k);
        let p = top_holders(d, n as int, 0)[k];
        let i = choose|i: int| 0 <= i < d.len() && #[trigger] d[i].0 == p.1 && d[i].1.contains(p.0);
        let j = s.len() - 1 - i;
        assert(d[i] == s[j]);
        lemma_increasing_distinct(s);
        lemma_assoc_at(s, j);
        assert(self.ledger().holders.contains_key(p.1));
        assert(self.ledger().holders[p.1].contains(p.0));
    }
}

/// A transfer of `v` between two different ordinary accounts, covered by
/// the sender's balance, moves exactly `v` from one to the other and leaves
/// every other balance and the supply as they were.
pub proof fn law_transfer_moves_value(l: Ledger, from: Seq<char>, to: Seq<char>, v: nat, other: Seq<char>)
    requires
        from != to,
        balance_of(l.accounts, from) >= v,
        other != from,
        other != to,
    ensures
        ({
            let l2 = apply_transfer(l, from, to, v, false, false);
            &&& balance_of(l2.accounts, from) == balance_of(l.accounts, from) - v
            &&& balance_of(l2.accounts, to) == balance_of(l.accounts, to) + v
            &&& balance_of(l2.accounts, other) == balance_of(l.accounts, other)
            &&& l2.total_supply == l.total_supply
        }),
{
}

/// A transfer from an account to itself leaves every balance and the supply as they were.
pub proof fn law_self_transfer_keeps_balances(l: Ledger, a: Seq<char>, v: nat, other: Seq<char>)
    requires
        balance_of(l.accounts, a) >= v,
    ensures
        ({
            let l2 = apply_transfer(l, a, a, v, false, false);
            &&& balance_of(l2.accounts, other) == balance_of(l.accounts, other)
            &&& l2.total_supply == l.total_supply
        }),
{
}


/// How a transfer moves the total supply: a mint (from the null address to
/// an account) adds its value; a transfer between accounts leaves it; a burn
/// (from an account to the null address) takes the value off when the supply
/// covers it and leaves it otherwise; a transfer from the null address to
/// itself leaves it.
pub proof fn law_transfer_supply(
    l: Ledger,
    from: Seq<char>,
    to: Seq<char>,
    v: nat,
    from_null: bool,
    to_null: bool,
)
    ensures
        ({
            let s2 = apply_transfer(l, from, to, v, from_null, to_null).total_supply;
            &&& from_null && !to_null ==> s2 == l.total_supply + v
            &&& !from_null && !to_null ==> s2 == l.total_supply
            &&& !from_null && to_null && l.total_supply >= v ==> s2 == l.total_supply - v
            &&& !from_null && to_null && l.total_supply < v ==> s2 == l.total_supply
            &&& from_null && to_null ==> s2 == l.total_supply
        }),
{
}

/// A mint of `v` to an account credits that account with `v`, leaves every
/// other balance as it was, and grows the supply by `v`.
pub proof fn law_mint_credits_receiver(l: Ledger, from: Seq<char>, to: Seq<char>, v: nat, other: Seq<char>)
    requires
        other != to,
    ensures
        ({
            let l2 = apply_transfer(l, from, to, v, true, false);
            &&& balance_of(l2.accounts, to) == balance_of(l.accounts, to) + v
            &&& balance_of(l2.accounts, other) == balance_of(l.accounts, other)
            &&& l2.total_supply == l.total_supply + v
        }),
{
}

/// Setting the balance of `x` leaves where every other account is listed.
proof fn lemma_set_balance_lists_others(l: Ledger, x: Seq<char>, nb: nat, a: Seq<char>, val: nat)
    requires
        a != x,
    ensures
        ({
            let h2 = set_balance(l, x, nb).holders;
            (h2.contains_key(val) && h2[val].contains(a)) == (l.holders.contains_key(val)
                && l.holders[val].contains(a))
        }),
{
    let h = l.holders;
    let base = if h.contains_key(nb) { h[nb] } else { Seq::<Seq<char>>::empty() };
    let h1 = add_holder(h, nb, x);
    lemma_push_contains(base, x, a);
    assert((h1.contains_key(val) && h1[val].contains(a)) == (h.contains_key(val) && h[val].contains(a)));
    let ob = balance_of(l.accounts, x);
    if h1.contains_key(ob) {
        lemma_remove_value(h1[ob], x);
    }
}

/// A burn (a transfer to the null address) credits nobody: every account
/// other than the sender, the null address among them, keeps its balance and
/// its place in the holder index; the sender is debited `v` when its balance
/// covers it. A burn from the null address itself changes no account.
pub proof fn law_burn_credits_nobody(
    l: Ledger,
    from: Seq<char>,
    to: Seq<char>,
    v: nat,
    from_null: bool,
    a: Seq<char>,
    val: nat,
)
    requires
        from_null || a != from,
    ensures
        ({
            let l2 = apply_transfer(l, from, to, v, from_null, true);
            &&& balance_of(l2.accounts, a) == balance_of(l.accounts, a)
            &&& (l2.holders.contains_key(val) && l2.holders[val].contains(a)) == (l.holders.contains_key(val)
                && l.holders[val].contains(a))
            &&& !from_null && balance_of(l.accounts, from) >= v ==> balance_of(l2.accounts, from)
                == balance_of(l.accounts, from) - v
        }),
{
    if !from_null && balance_of(l.accounts, from) >= v {
        lemma_set_balance_lists_others(l, from, (balance_of(l.accounts, from) - v) as nat, a, val);
    }
}

/// All `(account, balance)` pairs of the groups, group after group.
pub open spec fn group_pairs(desc: Seq<(nat, Seq<Seq<char>>)>) -> Seq<(Seq<char>, nat)>
    decreases desc.len(),
{
    if desc.len() == 0 {
        Seq::empty()
    } else {
        desc[0].1.map_values(|a: Seq<char>| (a, desc[0].0)) + group_pairs(desc.drop_first())
    }
}

/// Group balances strictly decrease along the list.
pub open spec fn values_decreasing(s: Seq<(nat, Seq<Seq<char>>)>) -> bool {
    forall|i: int, j: int| 0 <= i < j < s.len() ==> #[trigger] s[i].0 > #[trigger] s[j].0
}

/// No group lists an account twice, and no account is in two groups.
pub open spec fn groups_disjoint(s: Seq<(nat, Seq<Seq<char>>)>) -> bool {
    &&& forall|i: int| 0 <= i < s.len() ==> (#[trigger] s[i]).1.no_duplicates()
    &&& forall|i: int, j: int, a: Seq<char>|
        #![trigger s[i].1.contains(a), s[j].1.contains(a)]
        0 <= i < j < s.len() && s[i].1.contains(a) ==> !s[j].1.contains(a)
}

/// A larger limit extends the largest-holders list: the list for `n1` is a
/// prefix of the list for any `n2 >= n1`.
pub proof fn law_top_holders_prefix(desc: Seq<(nat, Seq<Seq<char>>)>, n1: int, n2: int, count: int)
    requires
        n1 <= n2,
    ensures
        top_holders(desc, n1, count).len() <= top_holders(desc, n2, count).len(),
        top_holders(desc, n2, count).take(top_holders(desc, n1, count).len() as int)
            == top_holders(desc, n1, count),
    decreases desc.len(),
{
    let a = top_holders(desc, n1, count);
    let b = top_holders(desc, n2, count);
    if desc.len() == 0 || count + desc[0].1.len() > n1 {
        assert(a.len() == 0);
        assert(b.take(0) =~= a);
    } else {
        let c = count + desc[0].1.len();
        let g = desc[0].1.map_values(|x: Seq<char>| (x, desc[0].0));
        law_top_holders_prefix(desc.drop_first(), n1, n2, c);
        let ra = top_holders(desc.drop_first(), n1, c);
        let rb = top_holders(desc.drop_first(), n2, c);
        assert(a == g + ra);
        assert(b == g + rb);
        assert((g + rb).take((g + ra).len() as int) =~= g + rb.take(ra.len() as int));
    }
}

/// With a limit that covers every listed account, the largest-holders list
/// is every group in full.
pub proof fn law_top_holders_all(desc: Seq<(nat, Seq<Seq<char>>)>, n: int, count: int)
    requires
        count + total_len(desc) <= n,
    ensures
        top_holders(desc, n, count) == group_pairs(desc),
    decreases desc.len(),
{
    if desc.len() > 0 {
        law_top_holders_all(desc.drop_first(), n, count + desc[0].1.len());
    }
}

/// Balances never increase along the largest-holders list.
pub proof fn law_top_holders_sorted(desc: Seq<(nat, Seq<Seq<char>>)>, n: int, count: int)
    requires
        values_decreasing(desc),
    ensures
        forall|k1: int, k2: int|
            0 <= k1 < k2 < top_holders(desc, n, count).len() ==> #[trigger] top_holders(desc, n, count)[k1].1
                >= #[trigger] top_holders(desc, n, count)[k2].1,
    decreases desc.len(),
{
    if desc.len() > 0 && count + desc[0].1.len() <= n {
        let c = count + desc[0].1.len();
        let rest = desc.drop_first();
        let g = desc[0].1.map_values(|x: Seq<char>| (x, desc[0].0));
        let r = top_holders(rest, n, c);
        let t = top_holders(desc, n, count);
        assert(t == g + r);
        assert forall|i: int, j: int| 0 <= i < j < rest.len() implies #[trigger] rest[i].0 > #[trigger] rest[j].0 by {
            assert(desc[i + 1].0 > desc[j + 1].0);
        }
        law_top_holders_sorted(rest, n, c);
        assert forall|k1: int, k2: int| 0 <= k1 < k2 < t.len() implies #[trigger] t[k1].1 >= #[trigger] t[k2].1 by {
            if k2 >= g.len() && k1 < g.len() {
                lemma_top_holders_from_groups(rest, n, c, k2 - g.len());
                let i = choose|i: int|
                    0 <= i < rest.len() && #[trigger] rest[i].0 == r[k2 - g.len()].1
                        && rest[i].1.contains(r[k2 - g.len()].0);
                assert(desc[0].0 > desc[i + 1].0);
                assert(t[k2] == r[k2 - g.len()]);
            } else if k1 >= g.len() {
                assert(t[k1] == r[k1 - g.len()]);
                assert(t[k2] == r[k2 - g.len()]);
            }
        }
    }
}

/// While groups are disjoint, no account occurs twice in the largest-holders list.
pub proof fn law_top_holders_distinct(desc: Seq<(nat, Seq<Seq<char>>)>, n: int, count: int)
    requires
        groups_disjoint(desc),
    ensures
        top_holders(desc, n, count).map_values(|p: (Seq<char>, nat)| p.0).no_duplicates(),
    decreases desc.len(),
{
    let t = top_holders(desc, n, count);
    if desc.len() > 0 && count + desc[0].1.len() <= n {
        let c = count + desc[0].1.len();
        let rest = desc.drop_first();
        let g = desc[0].1.map_values(|x: Seq<char>| (x, desc[0].0));
        let r = top_holders(rest, n, c);
        assert(t == g + r);
        assert forall|i: int| 0 <= i < rest.len() implies (#[trigger] rest[i]).1.no_duplicates() by {
            assert(rest[i] == desc[i + 1]);
        }
        assert forall|i: int, j: int, a: Seq<char>|
            #![trigger rest[i].1.contains(a), rest[j].1.contains(a)]
            0 <= i < j < rest.len() && rest[i].1.contains(a) implies !rest[j].1.contains(a) by {
            assert(rest[i] == desc[i + 1]);
            assert(rest[j] == desc[j + 1]);
        }
        law_top_holders_distinct(rest, n, c);
        let ta = t.map_values(|p: (Seq<char>, nat)| p.0);
        let ra = r.map_values(|p: (Seq<char>, nat)| p.0);
        assert(desc[0].1.no_duplicates());
        assert forall|k1: int, k2: int| 0 <= k1 < ta.len() && 0 <= k2 < ta.len() && k1 != k2 implies ta[k1] != ta[k2] by {
            if k1 < g.len() && k2 < g.len() {
                assert(ta[k1] == desc[0].1[k1]);
                assert(ta[k2] == desc[0].1[k2]);
            } else if k1 >= g.len() && k2 >= g.len() {
                assert(ta[k1] == ra[k1 - g.len()]);
                assert(ta[k2] == ra[k2 - g.len()]);
            } else {
                let (kg, kr) = if k1 < g.len() { (k1, k2) } else { (k2, k1) };
                lemma_top_holders_from_groups(rest, n, c, kr - g.len());
                let i = choose|i: int|
                    0 <= i < rest.len() && #[trigger] rest[i].0 == r[kr - g.len()].1
                        && rest[i].1.contains(r[kr - g.len()].0);
                assert(ta[kg] == desc[0].1[kg]);
                assert(desc[0].1.contains(ta[kg]));
                assert(ta[kr] == r[kr - g.len()].0);
                assert(desc[i + 1] == rest[i]);
                if ta[kg] == ta[kr] {
                    assert(!desc[i + 1].1.contains(ta[kg]));
                }
            }
        }
    } else {
        assert(t.map_values(|p: (Seq<char>, nat)| p.0) =~= Seq::<Seq<char>>::empty());
    }
}

/// Every member of a group is among the group pairs, with the group's balance.
proof fn lemma_group_member_listed(desc: Seq<(nat, Seq<Seq<char>>)>, i: int, a: Seq<char>)
    requires
        0 <= i < desc.len(),
        desc[i].1.contains(a),
    ensures
        group_pairs(desc).contains((a, desc[i].0)),
    decreases desc.len(),
{
    let g = desc[0].1.map_values(|x: Seq<char>| (x, desc[0].0));
    let gp = group_pairs(desc);
    assert(gp == g + group_pairs(desc.drop_first()));
    if i == 0 {
        let j = choose|j: int| 0 <= j < desc[0].1.len() && desc[0].1[j] == a;
        assert(gp[j] == (a, desc[0].0));
    } else {
        assert(desc.drop_first()[i - 1] == desc[i]);
        lemma_group_member_listed(desc.drop_first(), i - 1, a);
        let r = group_pairs(desc.drop_first());
        let j = choose|j: int| 0 <= j < r.len() && r[j] == (a, desc[i].0);
        assert(gp[g.len() + j] == (a, desc[i].0));
    }
}

impl MappingStore {
    /// While the index agrees with the balances, the largest-holders list is
    /// ordered by balance from the largest down, names no account twice,
    /// extends the list for any smaller limit, and, once the limit covers
    /// every listed account, names every account with a positive balance.
    pub proof fn law_top_holders_ordered_complete(&self, n: nat, n1: nat)
        requires
            self.wf(),
            index_agrees(self.ledger()),
            n1 <= n,
        ensures
            ({
                let l = top_holders(self.spec_buckets().reverse(), n as int, 0);
                &&& forall|k1: int, k2: int| 0 <= k1 < k2 < l.len() ==> #[trigger] l[k1].1 >= #[trigger] l[k2].1
                &&& l.map_values(|p: (Seq<char>, nat)| p.0).no_duplicates()
                &&& l.take(top_holders(self.spec_buckets().reverse(), n1 as int, 0).len() as int)
                    == top_holders(self.spec_buckets().reverse(), n1 as int, 0)
                &&& total_len(self.spec_buckets().reverse()) <= n ==> forall|a: Seq<char>|
                    #[trigger] self.ledger().accounts.contains_key(a) && self.ledger().accounts[a] > 0
                        ==> l.contains((a, self.ledger().accounts[a]))
            }),
    {
        let s = self.spec_buckets();
        let d = s.reverse();
        let h = self.ledger().holders;
        let acc = self.ledger().accounts;
        lemma_increasing_distinct(s);
        assert forall|i: int, j: int| 0 <= i < j < d.len() implies #[trigger] d[i].0 > #[trigger] d[j].0 by {
            assert(d[i] == s[s.len() - 1 - i]);
            assert(d[j] == s[s.len() - 1 - j]);
        }
        law_top_holders_sorted(d, n as int, 0);
        assert forall|i: int| 0 <= i < d.len() implies (#[trigger] d[i]).1.no_duplicates() by {
            let k = s.len() - 1 - i;
            assert(d[i] == s[k]);
            lemma_assoc_at(s, k);
            assert(h.contains_key(s[k].0));
        }
        assert forall|i: int, j: int, a: Seq<char>|
            #![trigger d[i].1.contains(a), d[j].1.contains(a)]
            0 <= i < j < d.len() && d[i].1.contains(a) implies !d[j].1.contains(a) by {
            let ki = s.len() - 1 - i;
            let kj = s.len() - 1 - j;
            assert(d[i] == s[ki]);
            assert(d[j] == s[kj]);
            lemma_assoc_at(s, ki);
            lemma_assoc_at(s, kj);
            assert(h[s[ki].0].contains(a));
            if d[j].1.contains(a) {
                assert(h[s[kj].0].contains(a));
                assert(s[kj].0 != s[ki].0);
            }
        }
        law_top_holders_distinct(d, n as int, 0);
        law_top_holders_prefix(d, n1 as int, n as int, 0);
        if total_len(d) <= n {
            law_top_holders_all(d, n as int, 0);
            assert forall|a: Seq<char>| #[trigger] acc.contains_key(a) && acc[a] > 0 implies top_holders(
                d,
                n as int,
                0,
            ).contains((a, acc[a])) by {
                let v = acc[a];
                assert(h.contains_key(v) && h[v].contains(a));
                let k = choose|k: int| 0 <= k < s.len() && #[trigger] s[k].0 == v;
                lemma_assoc_at(s, k);
                let i = s.len() - 1 - k;
                assert(d[i] == s[k]);
                lemma_group_member_listed(d, i, a);
            }
        }
    }
}

/// The ledger of a new store: no accounts, no holders, no supply.
pub open spec fn empty_ledger() -> Ledger {
    Ledger { accounts: Map::empty(), holders: Map::empty(), total_supply: 0 }
}

/// The ledger after the transfers `events` (each a sender, a receiver and a
/// value) are applied to `l` in order.
pub open spec fn ledger_after(l: Ledger, events: Seq<(Seq<char>, Seq<char>, nat)>) -> Ledger
    decreases events.len(),
{
    if events.len() == 0 {
        l
    } else {
        let e = events.last();
        apply_transfer(ledger_after(l, events.drop_last()), e.0, e.1, e.2, spec_is_null(e.0), spec_is_null(e.1))
    }
}

/// In every ledger reached from a new store by transfers, the index agrees
/// with the balances.
pub proof fn law_reachable_index_agrees(events: Seq<(Seq<char>, Seq<char>, nat)>)
    ensures
        index_agrees(ledger_after(empty_ledger(), events)),
    decreases events.len(),
{
    if events.len() > 0 {
        let e = events.last();
        law_reachable_index_agrees(events.drop_last());
        law_transfer_keeps_index(
            ledger_after(empty_ledger(), events.drop_last()),
            e.0,
            e.1,
            e.2,
            spec_is_null(e.0),
            spec_is_null(e.1),
        );
    }
}

impl MappingStore {
    /// In a store reached from a new store by any sequence of transfers, the
    /// largest-holders list reports each account with its balance, is ordered
    /// by balance from the largest down, names no account twice, extends the
    /// list for any smaller limit, and, once the limit covers every listed
    /// account, names every account with a positive balance.
    pub proof fn law_reachable_top_holders(
        &self,
        events: Seq<(Seq<char>, Seq<char>, nat)>,
        n: nat,
        n1: nat,
    )
        requires
            self.wf(),
            self.ledger() == ledger_after(empty_ledger(), events),
            n1 <= n,
        ensures
            ({
                let l = top_holders(self.spec_buckets().reverse(), n as int, 0);
                &&& l.len() <= n
                &&& forall|k: int| 0 <= k < l.len() ==> self.ledger().accounts.contains_key(#[trigger] l[k].0)
                    && self.ledger().accounts[l[k].0] == l[k].1
                &&& forall|k1: int, k2: int| 0 <= k1 < k2 < l.len() ==> #[trigger] l[k1].1 >= #[trigger] l[k2].1
                &&& l.map_values(|p: (Seq<char>, nat)| p.0).no_duplicates()
                &&& l.take(top_holders(self.spec_buckets().reverse(), n1 as int, 0).len() as int)
                    == top_holders(self.spec_buckets().reverse(), n1 as int, 0)
                &&& total_len(self.spec_buckets().reverse()) <= n ==> forall|a: Seq<char>|
                    #[trigger] self.ledger().accounts.contains_key(a) && self.ledger().accounts[a] > 0
                        ==> l.contains((a, self.ledger().accounts[a]))
            }),
    {
        law_reachable_index_agrees(events);
        self.law_top_holders_ordered_complete(n, n1);
        let l = top_holders(self.spec_buckets().reverse(), n as int, 0);
        law_top_holders_within(self.spec_buckets().reverse(), n as int, 0);
        assert forall|k: int| 0 <= k < l.len() implies self.ledger().accounts.contains_key(#[trigger] l[k].0)
            && self.ledger().accounts[l[k].0] == l[k].1 by {
            self.law_top_holders_report_balances(n, k);
        }
    }
}

} // verus!
