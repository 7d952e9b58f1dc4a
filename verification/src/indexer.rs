//! The indexer's decisions around its outside work: the sync schedule, what a
//! fetch of transfer logs does to the store, and how new events are batched
//! for publishing.
use vstd::prelude::*;
use crate::config::{IndexingConfig, Token, TokenConfig, spec_created_block};
use crate::indexer_store::{IndexerStore, Profile, block_view};
use crate::network::SupportedNetwork;
use crate::types::{TransferEvent, TransferEventView, events_view};

verus! {

/// How many blocks one sync step covers unless changed.
pub const DEFAULT_EVENT_CHUNKS: u64 = 500;

/// How many events one published batch holds at most.
pub const PUBLISH_BATCH_SIZE: usize = 800;

/// The map after storing each block of `l` in turn (a later block replaces an earlier one).
pub open spec fn insert_blocks(
    m: Map<u64, Seq<TransferEventView>>,
    l: Seq<(u64, Seq<TransferEventView>)>,
) -> Map<u64, Seq<TransferEventView>>
    decreases l.len(),
{
    if l.len() == 0 {
        m
    } else {
        insert_blocks(m, l.drop_last()).insert(l.last().0, l.last().1)
    }
}

/// All events of `l`, block after block.
pub open spec fn flatten_blocks(l: Seq<(u64, Seq<TransferEventView>)>) -> Seq<TransferEventView>
    decreases l.len(),
{
    if l.len() == 0 {
        Seq::empty()
    } else {
        flatten_blocks(l.drop_last()) + l.last().1
    }
}

/// Storing a list of blocks puts each block of the list in the map with the
/// events of its last occurrence in the list, and leaves every block that is
/// not in the list as it was.
pub proof fn law_insert_blocks(m: Map<u64, Seq<TransferEventView>>, l: Seq<(u64, Seq<TransferEventView>)>)
    ensures
        forall|i: int|
            0 <= i < l.len() && (forall|j: int| i < j < l.len() ==> (#[trigger] l[j]).0 != l[i].0)
                ==> insert_blocks(m, l).contains_key(#[trigger] l[i].0) && insert_blocks(m, l)[l[i].0]
                == l[i].1,
        forall|k: u64|
            (forall|i: int| 0 <= i < l.len() ==> (#[trigger] l[i]).0 != k) ==> (
            #[trigger] insert_blocks(m, l).contains_key(k) == m.contains_key(k) && (m.contains_key(k)
                ==> insert_blocks(m, l)[k] == m[k])),
    decreases l.len(),
{
    if l.len() > 0 {
        let p = l.drop_last();
        law_insert_blocks(m, p);
        let r = insert_blocks(m, l);
        assert forall|i: int|
            0 <= i < l.len() && (forall|j: int| i < j < l.len() ==> (#[trigger] l[j]).0 != l[i].0)
                implies r.contains_key(#[trigger] l[i].0) && r[l[i].0] == l[i].1 by {
            if i < l.len() - 1 {
                assert(p[i] == l[i]);
                assert forall|j: int| i < j < p.len() implies (#[trigger] p[j]).0 != p[i].0 by {
                    assert(p[j] == l[j]);
                }
                assert(l[l.len() - 1].0 != l[i].0);
            }
        }
        assert forall|k: u64| (forall|i: int| 0 <= i < l.len() ==> (#[trigger] l[i]).0 != k) implies (
        #[trigger] r.contains_key(k) == m.contains_key(k) && (m.contains_key(k) ==> r[k] == m[k])) by {
            assert forall|i: int| 0 <= i < p.len() implies (#[trigger] p[i]).0 != k by {
                assert(p[i] == l[i]);
            }
            assert(l[l.len() - 1].0 != k);
            let ip = insert_blocks(m, p);
            assert(ip.contains_key(k) == m.contains_key(k));
            assert(r == ip.insert(l.last().0, l.last().1));
            assert(r.contains_key(k) == ip.contains_key(k));
            if m.contains_key(k) {
                assert(ip[k] == m[k]);
                assert(r[k] == ip[k]);
            }
        }
    }
}

/// The events of a single block are published in their own order.
pub proof fn law_flatten_one_block(b: (u64, Seq<TransferEventView>))
    ensures
        flatten_blocks(seq![b]) == b.1,
{
    let e = Seq::<(u64, Seq<TransferEventView>)>::empty();
    assert(seq![b].drop_last() =~= e);
    assert(flatten_blocks(e) == Seq::<TransferEventView>::empty());
    assert(seq![b].last() == b);
    assert(Seq::<TransferEventView>::empty() + b.1 =~= b.1);
}

/// The events of two lists of blocks, one after the other, are the events of
/// the first list followed by those of the second.
pub proof fn law_flatten_append(l1: Seq<(u64, Seq<TransferEventView>)>, l2: Seq<(u64, Seq<TransferEventView>)>)
    ensures
        flatten_blocks(l1 + l2) == flatten_blocks(l1) + flatten_blocks(l2),
    decreases l2.len(),
{
    if l2.len() == 0 {
        assert(l1 + l2 =~= l1);
        assert(flatten_blocks(l1) + Seq::<TransferEventView>::empty() =~= flatten_blocks(l1));
    } else {
        law_flatten_append(l1, l2.drop_last());
        assert((l1 + l2).drop_last() =~= l1 + l2.drop_last());
        assert((l1 + l2).last() == l2.last());
        assert(flatten_blocks(l1) + flatten_blocks(l2.drop_last()) + l2.last().1 =~= flatten_blocks(l1) + (
        flatten_blocks(l2.drop_last()) + l2.last().1));
    }
}

/// The views of fetched blocks.
pub open spec fn blocks_view(l: Seq<(u64, Vec<TransferEvent>)>) -> Seq<(u64, Seq<TransferEventView>)> {
    l.map_values(|e: (u64, Vec<TransferEvent>)| block_view(e))
}

/// Where batch `i` of a list of `len` events ends.
pub open spec fn batch_end(i: int, len: int) -> int {
    if i * 800 + 800 <= len {
        i * 800 + 800
    } else {
        len
    }
}

/// `batches` cut `data` into consecutive runs of 800 events, the last one shorter.
pub open spec fn is_batching(batches: Seq<Seq<TransferEventView>>, data: Seq<TransferEventView>) -> bool {
    &&& data.len() <= batches.len() * 800 < data.len() + 800
    &&& forall|i: int|
        0 <= i < batches.len() ==> #[trigger] batches[i] == data.subrange(
            i * 800,
            batch_end(i, data.len() as int),
        )
}

/// A copy of `data[start..end]`.
fn copy_range(data: &Vec<TransferEvent>, start: usize, end: usize) -> (r: Vec<TransferEvent>)
    requires
        start <= end <= data@.len(),
    ensures
        events_view(r@) == events_view(data@).subrange(start as int, end as int),
{
    let mut r: Vec<TransferEvent> = Vec::new();
    let mut j: usize = start;
    while j < end
        invariant
            start <= j <= end <= data@.len(),
            events_view(r@) == events_view(data@).subrange(start as int, j as int),
        decreases end - j,
    {
        let ghost before = r@;
        r.push(data[j].duplicate());
        assert(events_view(r@) =~= events_view(before).push(data@[j as int]@));
        assert(events_view(data@).subrange(start as int, j + 1) =~= events_view(data@).subrange(
            start as int,
            j as int,
        ).push(data@[j as int]@));
        j = j + 1;
    }
    r
}

/// Cuts `data` into batches of `PUBLISH_BATCH_SIZE` events for publishing,
/// in order; only the last batch may be shorter, and no batch is empty.
pub fn publish_batches(data: &Vec<TransferEvent>) -> (r: Vec<Vec<TransferEvent>>)
    ensures
        is_batching(r@.map_values(|b: Vec<TransferEvent>| events_view(b@)), events_view(data@)),
{
    let len = data.len();
    let ghost d = events_view(data@);
    let mut out: Vec<Vec<TransferEvent>> = Vec::new();
    let mut start: usize = 0;
    while start < len
        invariant
            len == data@.len(),
            d == events_view(data@),
            start <= len,
            out@.len() * 800 < len + 800,
            start == (if out@.len() * 800 <= len { (out@.len() * 800) as int } else { len as int }),
            start < len ==> start == out@.len() * 800,
            forall|i: int|
                0 <= i < out@.len() ==> #[trigger] events_view(out@[i]@) == d.subrange(
                    i * 800,
                    batch_end(i, len as int),
                ),
        decreases len - start,
    {
        let end: usize = if len - start > PUBLISH_BATCH_SIZE {
            start + PUBLISH_BATCH_SIZE
        } else {
            len
        };
        let batch = copy_range(data, start, end);
        let ghost k = out@.len() as int;
        out.push(batch);
        assert(end == batch_end(k, len as int));
        start = end;
    }
    let ghost bv = out@.map_values(|b: Vec<TransferEvent>| events_view(b@));
    assert forall|i: int| 0 <= i < bv.len() implies #[trigger] bv[i] == d.subrange(
        i * 800,
        batch_end(i, d.len() as int),
    ) by {
        assert(events_view(out@[i]@) == d.subrange(i * 800, batch_end(i, len as int)));
    }
    out
}

/// The batches one after the other.
pub open spec fn concat_batches(b: Seq<Seq<TransferEventView>>) -> Seq<TransferEventView>
    decreases b.len(),
{
    if b.len() == 0 {
        Seq::empty()
    } else {
        concat_batches(b.drop_last()) + b.last()
    }
}

/// Batching loses, adds and reorders nothing: the batches put back together
/// are the data.
pub proof fn law_batches_concat(b: Seq<Seq<TransferEventView>>, d: Seq<TransferEventView>)
    requires
        is_batching(b, d),
    ensures
        concat_batches(b) == d,
{
    let len = d.len() as int;
    assert forall|k: int| 0 <= k <= b.len() implies #[trigger] concat_batches(b.take(k)) == d.take(
        if k * 800 <= len { k * 800 } else { len },
    ) by {
        lemma_concat_prefix(b, d, k);
    }
    assert(b.take(b.len() as int) =~= b);
    assert(d.take(len) =~= d);
}

proof fn lemma_concat_prefix(b: Seq<Seq<TransferEventView>>, d: Seq<TransferEventView>, k: int)
    requires
        is_batching(b, d),
        0 <= k <= b.len(),
    ensures
        concat_batches(b.take(k)) == d.take(if k * 800 <= d.len() { k * 800 } else { d.len() as int }),
    decreases k,
{
    if k == 0 {
        assert(b.take(0) =~= Seq::<Seq<TransferEventView>>::empty());
        assert(d.take(0) =~= Seq::<TransferEventView>::empty());
    } else {
        lemma_concat_prefix(b, d, k - 1);
        assert(b.take(k).drop_last() =~= b.take(k - 1));
        assert(b.take(k).last() == b[k - 1]);
        assert((k - 1) * 800 < d.len());
        assert(b[k - 1] == d.subrange((k - 1) * 800, batch_end(k - 1, d.len() as int)));
        assert(d.take((k - 1) * 800) + d.subrange((k - 1) * 800, batch_end(k - 1, d.len() as int))
            =~= d.take(batch_end(k - 1, d.len() as int)));
    }
}

/// The indexer: its store and how many blocks one sync step covers.
pub struct Indexer {
    pub store: IndexerStore,
    pub event_chunks: u64,
}

impl Indexer {
    pub open spec fn spec_event_chunks(&self) -> u64 {
        self.event_chunks
    }

    /// A fresh indexer with the default sync step.
    pub fn new() -> (r: Self)
        ensures
            r.store.wf(),
            r.store.events_by_block() == Map::<u64, Seq<TransferEventView>>::empty(),
            r.store.spec_profile() is None,
            r.store.spec_saved_block() is None,
            r.store.spec_errors() == Seq::<Seq<char>>::empty(),
            r.spec_event_chunks() == DEFAULT_EVENT_CHUNKS,
    {
        Indexer { store: IndexerStore::new(), event_chunks: DEFAULT_EVENT_CHUNKS }
    }

    /// How many blocks one sync step covers.
    pub fn event_chunks(&self) -> (r: u64)
        ensures
            r == self.spec_event_chunks(),
    {
        self.event_chunks
    }

    /// Sets how many blocks one sync step covers.
    pub fn set_event_chunks(&mut self, n: u64)
        ensures
            final(self).spec_event_chunks() == n,
            final(self).store == old(self).store,
    {
        self.event_chunks = n;
    }

    /// The last synced block.
    pub fn latest_block_number(&self) -> (r: u64)
        ensures
            r == match self.store.spec_saved_block() {
                Some(b) => b,
                None => 0,
            },
    {
        self.store.saved_block()
    }

    /// The chain head recorded at set-up.
    pub fn block_number_at_deploy(&self) -> (r: u64)
        requires
            self.store.spec_profile() is Some,
        ensures
            r == self.store.spec_profile()->Some_0.config.batch_sync_start_from,
    {
        self.store.block_number_at_deploy()
    }

    /// Whether the past blocks up to the chain head at set-up have all been synced.
    pub fn sync_completed(&self) -> (r: bool)
        requires
            self.store.spec_profile() is Some,
        ensures
            r == (match self.store.spec_saved_block() {
                Some(b) => b,
                None => 0,
            } >= self.store.spec_profile()->Some_0.config.batch_sync_start_from),
    {
        self.latest_block_number() >= self.block_number_at_deploy()
    }

    /// Sets the indexer up to follow `token` on `network`, syncing past blocks
    /// from the token contract's creation up to `latest_block`.
    pub fn setup(&mut self, network: SupportedNetwork, token: Token, latest_block: u64)
        ensures
            final(self).store.spec_profile() matches Some(p) && p.config.batch_sync_start_from
                == latest_block && p.config.config.spec_network() == network
                && p.config.config.spec_token() == token,
            final(self).store.spec_saved_block() == Some(spec_created_block(token, network)),
            final(self).store.wf() == old(self).store.wf(),
            final(self).store.events_by_block() == old(self).store.events_by_block(),
            final(self).store.spec_errors() == old(self).store.spec_errors(),
            final(self).spec_event_chunks() == old(self).spec_event_chunks(),
    {
        self.store.setup(
            Profile { config: IndexingConfig::new(TokenConfig::new(network, token), latest_block) },
        );
    }

    /// The block range of the next sync step: from the last synced block,
    /// `event_chunks` blocks on.
    pub fn next_sync_range(&self) -> (r: (u64, u64))
        requires
            self.latest_spec() + self.spec_event_chunks() <= u64::MAX,
        ensures
            r.0 == self.latest_spec(),
            r.1 == self.latest_spec() + self.spec_event_chunks(),
    {
        let saved = self.latest_block_number();
        (saved, saved + self.event_chunks)
    }

    /// The last synced block, 0 when none is recorded.
    pub open spec fn latest_spec(&self) -> u64 {
        match self.store.spec_saved_block() {
            Some(b) => b,
            None => 0,
        }
    }

    /// Stores newly received blocks of events (a later block replaces an
    /// earlier one with the same number) and returns all their events, in
    /// order, cut into batches for publishing.
    pub fn ingest_events(&mut self, blocks: &Vec<(u64, Vec<TransferEvent>)>) -> (r: Vec<Vec<TransferEvent>>)
        requires
            old(self).store.wf(),
        ensures
            final(self).store.wf(),
            final(self).store.events_by_block() == insert_blocks(
                old(self).store.events_by_block(),
                blocks_view(blocks@),
            ),
            final(self).store.spec_profile() == old(self).store.spec_profile(),
            final(self).store.spec_saved_block() == old(self).store.spec_saved_block(),
            final(self).store.spec_errors() == old(self).store.spec_errors(),
            final(self).spec_event_chunks() == old(self).spec_event_chunks(),
            is_batching(
                r@.map_values(|b: Vec<TransferEvent>| events_view(b@)),
                flatten_blocks(blocks_view(blocks@)),
            ),
    {
        let ghost l = blocks_view(blocks@);
        let mut data: Vec<TransferEvent> = Vec::new();
        let mut i: usize = 0;
        while i < blocks.len()
            invariant
                i <= blocks@.len(),
                l == blocks_view(blocks@),
                self.store.wf(),
                self.store.events_by_block() == insert_blocks(
                    old(self).store.events_by_block(),
                    l.subrange(0, i as int),
                ),
                self.store.spec_profile() == old(self).store.spec_profile(),
                self.store.spec_saved_block() == old(self).store.spec_saved_block(),
                self.store.spec_errors() == old(self).store.spec_errors(),
                self.spec_event_chunks() == old(self).spec_event_chunks(),
                events_view(data@) == flatten_blocks(l.subrange(0, i as int)),
            decreases blocks@.len() - i,
        {
            let k = blocks[i].0;
            let evs = crate::types::duplicate_events(&blocks[i].1);
            let mut more = crate::types::duplicate_events(&blocks[i].1);
            proof {
                assert(l.subrange(0, i + 1).drop_last() =~= l.subrange(0, i as int));
                assert(l.subrange(0, i + 1).last() == l[i as int]);
            }
            let ghost before = events_view(data@);
            let ghost added = events_view(more@);
            data.append(&mut more);
            assert(events_view(data@) =~= before + added);
            self.store.add_events(k, evs);
            i = i + 1;
        }
        assert(l.subrange(0, i as int) =~= l);
        publish_batches(&data)
    }

    /// What a finished fetch of the transfer logs does, before anything is
    /// published: a failed fetch records its message and brings no events;
    /// fetched blocks are stored and their events returned in batches for
    /// publishing. The last synced block is left as it is.
    pub fn record_fetched_logs(
        &mut self,
        fetched: Result<Vec<(u64, Vec<TransferEvent>)>, String>,
    ) -> (r: Vec<Vec<TransferEvent>>)
        requires
            old(self).store.wf(),
        ensures
            final(self).store.wf(),
            final(self).store.spec_saved_block() == old(self).store.spec_saved_block(),
            final(self).store.spec_profile() == old(self).store.spec_profile(),
            final(self).spec_event_chunks() == old(self).spec_event_chunks(),
            match fetched {
                Ok(blocks) => {
                    &&& final(self).store.events_by_block() == insert_blocks(
                        old(self).store.events_by_block(),
                        blocks_view(blocks@),
                    )
                    &&& final(self).store.spec_errors() == old(self).store.spec_errors()
                    &&& is_batching(
                        r@.map_values(|b: Vec<TransferEvent>| events_view(b@)),
                        flatten_blocks(blocks_view(blocks@)),
                    )
                },
                Err(msg) => {
                    &&& final(self).store.events_by_block() == old(self).store.events_by_block()
                    &&& final(self).store.spec_errors() == old(self).store.spec_errors().push(msg@)
                    &&& r@.len() == 0
                },
            },
    {
        match fetched {
            Ok(blocks) => self.ingest_events(&blocks),
            Err(msg) => {
                self.store.new_err(msg.as_str());
                Vec::new()
            },
        }
    }

    /// Closes a sync step once its batches are published: `to` becomes the
    /// last synced block.
    pub fn finish_sync_step(&mut self, to: u64)
        ensures
            final(self).store.spec_saved_block() == Some(to),
            final(self).store.wf() == old(self).store.wf(),
            final(self).store.event_blocks() == old(self).store.event_blocks(),
            final(self).store.events_by_block() == old(self).store.events_by_block(),
            final(self).store.spec_profile() == old(self).store.spec_profile(),
            final(self).store.spec_errors() == old(self).store.spec_errors(),
            final(self).spec_event_chunks() == old(self).spec_event_chunks(),
    {
        self.store.update_saved_block(to);
    }
}

} // verus!
