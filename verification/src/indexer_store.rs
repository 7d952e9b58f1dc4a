//! The indexer's state: transfer events by block, the sync profile, the last
//! synced block and the log of fetch errors.
use vstd::prelude::*;
use vstd::string::*;
use crate::config::{IndexingConfig, spec_created_block, spec_token_address};
use crate::network::SupportedNetwork;
use crate::sequences::{first_n, newest_first, total_len, lemma_newest_first_len, lemma_newest_first_suffix};
use crate::sorted_map::{SortedMap, entries_map, keys_increasing, lemma_entries_map_at};
use crate::types::{TransferEvent, TransferEventView, events_view, duplicate_events};

verus! {

/// What the indexer was set up with.
#[derive(Debug, Clone, Copy, PartialEq, Eq, Structural)]
pub struct Profile {
    pub config: IndexingConfig,
}

/// The indexer's store.
pub struct IndexerStore {
    events: SortedMap<Vec<TransferEvent>>,
    profile: Option<Profile>,
    saved_block: Option<u64>,
    errors: Vec<String>,
}

/// The view of one block's events.
pub open spec fn block_view(e: (u64, Vec<TransferEvent>)) -> (u64, Seq<TransferEventView>) {
    (e.0, events_view(e.1@))
}

impl IndexerStore {
    /// The blocks that hold events, in increasing block order, with their events.
    pub closed spec fn event_blocks(&self) -> Seq<(u64, Seq<TransferEventView>)> {
        self.events.spec_entries().map_values(|e: (u64, Vec<TransferEvent>)| block_view(e))
    }

    /// The events recorded for each block.
    pub closed spec fn events_by_block(&self) -> Map<u64, Seq<TransferEventView>> {
        self.events.spec_map().map_values(|v: Vec<TransferEvent>| events_view(v@))
    }

    pub closed spec fn spec_profile(&self) -> Option<Profile> {
        self.profile
    }

    pub closed spec fn spec_saved_block(&self) -> Option<u64> {
        self.saved_block
    }

    /// The recorded error messages, oldest first.
    pub closed spec fn spec_errors(&self) -> Seq<Seq<char>> {
        self.errors@.map_values(|s: String| s@)
    }

    pub closed spec fn wf(&self) -> bool {
        self.events.wf()
    }

    /// The blocks are listed in increasing order, and the list holds exactly
    /// the events recorded per block.
    pub proof fn lemma_event_blocks_match(&self)
        requires
            self.wf(),
        ensures
            keys_increasing(self.event_blocks()),
            entries_map(self.event_blocks()) == self.events_by_block(),
    {
        let s = self.events.spec_entries();
        let t = self.event_blocks();
        assert forall|i: int| 0 <= i < t.len() implies #[trigger] t[i].0 == s[i].0 by {}
        assert forall|k: u64| #[trigger] entries_map(t).contains_key(k) <==> self.events_by_block().contains_key(k) by {
            if entries_map(t).contains_key(k) {
                let i = choose|i: int| 0 <= i < t.len() && #[trigger] t[i].0 == k;
                assert(s[i].0 == k);
            }
            if self.events_by_block().contains_key(k) {
                let i = choose|i: int| 0 <= i < s.len() && #[trigger] s[i].0 == k;
                assert(t[i].0 == k);
            }
        }
        assert forall|k: u64| #[trigger] entries_map(t).contains_key(k) implies entries_map(t)[k]
            == self.events_by_block()[k] by {
            let i = choose|i: int| 0 <= i < t.len() && #[trigger] t[i].0 == k;
            lemma_entries_map_at(t, i);
            lemma_entries_map_at(s, i);
        }
        assert(entries_map(t) =~= self.events_by_block());
    }

    /// An empty store that has not been set up.
    pub fn new() -> (r: Self)
        ensures
            r.wf(),
            r.event_blocks() == Seq::<(u64, Seq<TransferEventView>)>::empty(),
            r.events_by_block() == Map::<u64, Seq<TransferEventView>>::empty(),
            r.spec_profile() is None,
            r.spec_saved_block() is None,
            r.spec_errors() == Seq::<Seq<char>>::empty(),
    {
        let r = IndexerStore {
            events: SortedMap::new(),
            profile: None,
            saved_block: None,
            errors: Vec::new(),
        };
        assert(r.event_blocks() =~= Seq::<(u64, Seq<TransferEventView>)>::empty());
        assert(r.events_by_block() =~= Map::<u64, Seq<TransferEventView>>::empty());
        assert(r.spec_errors() =~= Seq::<Seq<char>>::empty());
        r
    }

    /// Records an error message.
    pub fn new_err(&mut self, msg: &str)
        ensures
            final(self).wf() == old(self).wf(),
            final(self).spec_errors() == old(self).spec_errors().push(msg@),
            final(self).event_blocks() == old(self).event_blocks(),
            final(self).events_by_block() == old(self).events_by_block(),
            final(self).spec_profile() == old(self).spec_profile(),
            final(self).spec_saved_block() == old(self).spec_saved_block(),
    {
        self.errors.push(msg.to_owned());
        assert(self.spec_errors() =~= old(self).spec_errors().push(msg@));
    }

    /// The latest `n` error messages, newest first; `n == 0` gives all of them.
    pub fn errors_latest_n(&self, n: u64) -> (r: Vec<String>)
        ensures
            r@.map_values(|s: String| s@) == first_n(self.spec_errors().reverse(), n as int),
    {
        let ghost all = self.spec_errors().reverse();
        let mut r: Vec<String> = Vec::new();
        let mut i: usize = self.errors.len();
        while i > 0
            invariant
                i <= self.errors.len(),
                all == self.spec_errors().reverse(),
                all.len() == self.errors.len(),
                r@.len() == self.errors.len() - i,
                r@.map_values(|s: String| s@) == all.take(r@.len() as int),
                n == 0 || r@.len() < n,
            decreases i,
        {
            let ghost before = r@;
            r.push(self.errors[i - 1].clone());
            assert(r@.map_values(|s: String| s@) =~= all.take(r@.len() as int));
            i = i - 1;
            if r.len() as u64 == n {
                return r;
            }
        }
        assert(all.take(r@.len() as int) =~= all);
        r
    }

    /// Whether the store has been set up.
    pub fn is_set_up(&self) -> (r: bool)
        ensures
            r == self.spec_profile() is Some,
    {
        self.profile.is_some()
    }

    /// The network being indexed.
    pub fn network(&self) -> (r: SupportedNetwork)
        requires
            self.spec_profile() is Some,
        ensures
            r == self.spec_profile()->Some_0.config.config.spec_network(),
    {
        self.profile.unwrap().config.config.network()
    }

    /// The chain head recorded at set-up, up to which past blocks are synced.
    pub fn block_number_at_deploy(&self) -> (r: u64)
        requires
            self.spec_profile() is Some,
        ensures
            r == self.spec_profile()->Some_0.config.batch_sync_start_from,
    {
        self.profile.unwrap().config.batch_sync_start_from
    }

    /// The number of stored events over all blocks.
    pub fn events_count(&self) -> (r: usize)
        requires
            total_len(self.event_blocks()) <= usize::MAX,
        ensures
            r == total_len(self.event_blocks()),
    {
        let ghost s = self.event_blocks();
        let mut count: usize = 0;
        let mut i: usize = self.events.len();
        proof {
            assert(s.subrange(i as int, s.len() as int) =~= Seq::<(u64, Seq<TransferEventView>)>::empty());
        }
        while i > 0
            invariant
                s == self.event_blocks(),
                s.len() == self.events.spec_entries().len(),
                i <= s.len(),
                count == total_len(s.subrange(i as int, s.len() as int)),
                total_len(s) <= usize::MAX,
            decreases i,
        {
            let e = self.events.entry(i - 1);
            proof {
                let t = s.subrange(i - 1, s.len() as int);
                assert(t.drop_first() =~= s.subrange(i as int, s.len() as int));
                assert(e.1@.len() == s[i - 1].1.len());
                lemma_total_len_suffix_bound(s, i - 1);
            }
            count = count + e.1.len();
            i = i - 1;
        }
        assert(s.subrange(0, s.len() as int) =~= s);
        count
    }

    /// The latest `n` events, newest block first and each block's events in
    /// stored order; `n == 0` gives all of them.
    pub fn events_latest_n(&self, n: usize) -> (r: Vec<TransferEvent>)
        requires
            self.wf(),
        ensures
            events_view(r@) == first_n(newest_first(self.event_blocks()), n as int),
    {
        let ghost s = self.event_blocks();
        let ghost all = newest_first(s);
        let mut r: Vec<TransferEvent> = Vec::new();
        let mut i: usize = self.events.len();
        proof {
            assert(s.subrange(i as int, s.len() as int) =~= Seq::<(u64, Seq<TransferEventView>)>::empty());
        }
        while i > 0
            invariant
                s == self.event_blocks(),
                all == newest_first(s),
                s.len() == self.events.spec_entries().len(),
                i <= s.len(),
                events_view(r@) == newest_first(s.subrange(i as int, s.len() as int)),
                n == 0 || r@.len() < n,
            decreases i,
        {
            let block = self.events.entry(i - 1);
            let ghost done = events_view(r@);
            let ghost evs = s[i - 1].1;
            proof {
                let t = s.subrange(i - 1, s.len() as int);
                assert(t.drop_first() =~= s.subrange(i as int, s.len() as int));
                assert(newest_first(t) == done + evs);
                assert(events_view(block.1@) == evs);
                lemma_newest_first_suffix(s, i - 1);
            }
            let mut j: usize = 0;
            while j < block.1.len()
                invariant
                    j <= block.1@.len(),
                    all == newest_first(self.event_blocks()),
                    events_view(block.1@) == evs,
                    events_view(r@) == done + evs.take(j as int),
                    n == 0 || r@.len() < n,
                    done.len() + evs.len() <= all.len(),
                    all.take((done.len() + evs.len()) as int) == done + evs,
                decreases block.1@.len() - j,
            {
                let ghost before = r@;
                r.push(block.1[j].duplicate());
                assert(events_view(r@) =~= events_view(before).push(evs[j as int]));
                assert(evs.take(j + 1) =~= evs.take(j as int).push(evs[j as int]));
                j = j + 1;
                if r.len() == n {
                    proof {
                        assert(all.take(r@.len() as int) =~= (done + evs).take(r@.len() as int));
                        assert((done + evs).take(r@.len() as int) =~= done + evs.take(j as int));
                        assert(events_view(r@) == all.take(n as int));
                        if n as int >= all.len() {
                            assert(all.take(n as int) =~= all);
                        }
                    }
                    return r;
                }
            }
            assert(evs.take(j as int) =~= evs);
            i = i - 1;
        }
        assert(s.subrange(0, s.len() as int) =~= s);
        r
    }

    /// The last synced block; 0 when none has been recorded.
    pub fn saved_block(&self) -> (r: u64)
        ensures
            r == match self.spec_saved_block() {
                Some(b) => b,
                None => 0,
            },
    {
        match self.saved_block {
            Some(b) => b,
            None => 0,
        }
    }

    /// The events recorded for `block_number`; empty when there are none.
    pub fn get_events_by_block_number(&self, block_number: u64) -> (r: Vec<TransferEvent>)
        requires
            self.wf(),
        ensures
            events_view(r@) == if self.events_by_block().contains_key(block_number) {
                self.events_by_block()[block_number]
            } else {
                Seq::<TransferEventView>::empty()
            },
    {
        match self.events.get(block_number) {
            Some(v) => duplicate_events(v),
            None => {
                let r: Vec<TransferEvent> = Vec::new();
                assert(events_view(r@) =~= Seq::<TransferEventView>::empty());
                r
            },
        }
    }

    /// Records `block_number` as the last synced block.
    pub fn update_saved_block(&mut self, block_number: u64)
        ensures
            final(self).spec_saved_block() == Some(block_number),
            final(self).wf() == old(self).wf(),
            final(self).event_blocks() == old(self).event_blocks(),
            final(self).events_by_block() == old(self).events_by_block(),
            final(self).spec_profile() == old(self).spec_profile(),
            final(self).spec_errors() == old(self).spec_errors(),
    {
        self.saved_block = Some(block_number);
    }

    /// Stores `events` as the events of `block_number`, replacing what was there.
    pub fn add_events(&mut self, block_number: u64, events: Vec<TransferEvent>)
        requires
            old(self).wf(),
        ensures
            final(self).wf(),
            final(self).events_by_block() == old(self).events_by_block().insert(
                block_number,
                events_view(events@),
            ),
            final(self).spec_profile() == old(self).spec_profile(),
            final(self).spec_saved_block() == old(self).spec_saved_block(),
            final(self).spec_errors() == old(self).spec_errors(),
    {
        let ghost v = events;
        self.events.insert(block_number, events);
        assert(self.events_by_block() =~= old(self).events_by_block().insert(
            block_number,
            events_view(v@),
        ));
    }

    /// Sets the store up for `p`: syncing starts at the token contract's creation block.
    pub fn setup(&mut self, p: Profile)
        ensures
            final(self).spec_profile() == Some(p),
            final(self).spec_saved_block() == Some(
                spec_created_block(p.config.config.spec_token(), p.config.config.spec_network()),
            ),
            final(self).wf() == old(self).wf(),
            final(self).event_blocks() == old(self).event_blocks(),
            final(self).events_by_block() == old(self).events_by_block(),
            final(self).spec_errors() == old(self).spec_errors(),
    {
        self.profile = Some(p);
        self.saved_block = Some(p.config.deployed_block());
    }

    /// The address of the indexed token's contract.
    pub fn address(&self) -> (r: String)
        requires
            self.spec_profile() is Some,
        ensures
            r@ == spec_token_address(
                self.spec_profile()->Some_0.config.config.spec_token(),
                self.spec_profile()->Some_0.config.config.spec_network(),
            ),
    {
        let p = self.profile.unwrap();
        String::from_str(p.config.address())
    }
}

/// After an error is recorded, the latest error reported is that error.
pub proof fn law_latest_error_is_newest(errors: Seq<Seq<char>>, msg: Seq<char>)
    ensures
        first_n(errors.push(msg).reverse(), 1) == seq![msg],
{
    let r = errors.push(msg).reverse();
    assert(r[0] == msg);
    if r.len() > 1 {
        assert(r.take(1) =~= seq![msg]);
    } else {
        assert(r =~= seq![msg]);
    }
}

impl IndexerStore {
    /// Asking for all the latest events gives as many events as the count reports.
    pub proof fn law_all_latest_events_counted(&self)
        ensures
            first_n(newest_first(self.event_blocks()), 0).len() == total_len(self.event_blocks()),
    {
        lemma_newest_first_len(self.event_blocks());
    }
}

/// A suffix's item count never exceeds the whole count.
proof fn lemma_total_len_suffix_bound<K, A>(s: Seq<(K, Seq<A>)>, k: int)
    requires
        0 <= k <= s.len(),
    ensures
        total_len(s.subrange(k, s.len() as int)) <= total_len(s),
    decreases k,
{
    if k == 0 {
        assert(s.subrange(0, s.len() as int) =~= s);
    } else {
        lemma_total_len_suffix_bound(s.drop_first(), k - 1);
        assert(s.drop_first().subrange(k - 1, s.drop_first().len() as int) =~= s.subrange(
            k,
            s.len() as int,
        ));
    }
}

} // verus!
