use indexer::bignat::BigNat;
use indexer::config::{IndexingConfig, Token, TokenConfig};
use indexer::http::{transform, HttpHeader, HttpReply};
use indexer::indexer::{publish_batches, Indexer, DEFAULT_EVENT_CHUNKS, PUBLISH_BATCH_SIZE};
use indexer::indexer_store::{IndexerStore, Profile};
use indexer::network::SupportedNetwork;
use indexer::types::TransferEvent;

fn ev(from: &str, to: &str, v: u64) -> TransferEvent {
    TransferEvent { from: from.to_string(), to: to.to_string(), value: BigNat::from_u64(v) }
}

fn profile(latest: u64) -> Profile {
    Profile { config: IndexingConfig::new(TokenConfig::new(SupportedNetwork::Mainnet, Token::DAI), latest) }
}

#[test]
fn errors_latest_n_newest_first() {
    let mut s = IndexerStore::new();
    s.new_err("a");
    s.new_err("b");
    s.new_err("c");
    assert_eq!(s.errors_latest_n(2), vec!["c".to_string(), "b".to_string()]);
    assert_eq!(s.errors_latest_n(5), vec!["c".to_string(), "b".to_string(), "a".to_string()]);
    assert_eq!(s.errors_latest_n(1), vec!["c".to_string()]);
}

#[test]
fn errors_latest_zero_gives_all() {
    let mut s = IndexerStore::new();
    s.new_err("a");
    s.new_err("b");
    assert_eq!(s.errors_latest_n(0), vec!["b".to_string(), "a".to_string()]);
    assert!(IndexerStore::new().errors_latest_n(3).is_empty());
}

#[test]
fn events_by_block_and_latest() {
    let mut s = IndexerStore::new();
    s.add_events(20, vec![ev("a", "b", 1), ev("b", "c", 2)]);
    s.add_events(10, vec![ev("x", "y", 3)]);
    s.add_events(30, vec![ev("p", "q", 4)]);
    assert_eq!(s.get_events_by_block_number(20), vec![ev("a", "b", 1), ev("b", "c", 2)]);
    assert!(s.get_events_by_block_number(15).is_empty());
    assert_eq!(s.events_count(), 4);
    assert_eq!(s.events_latest_n(2), vec![ev("p", "q", 4), ev("a", "b", 1)]);
    assert_eq!(s.events_latest_n(3), vec![ev("p", "q", 4), ev("a", "b", 1), ev("b", "c", 2)]);
    assert_eq!(
        s.events_latest_n(0),
        vec![ev("p", "q", 4), ev("a", "b", 1), ev("b", "c", 2), ev("x", "y", 3)]
    );
    assert_eq!(s.events_latest_n(10).len(), 4);
}

#[test]
fn add_events_replaces_block() {
    let mut s = IndexerStore::new();
    s.add_events(5, vec![ev("a", "b", 1)]);
    s.add_events(5, vec![ev("c", "d", 2), ev("e", "f", 3)]);
    assert_eq!(s.get_events_by_block_number(5), vec![ev("c", "d", 2), ev("e", "f", 3)]);
    assert_eq!(s.events_count(), 2);
}

#[test]
fn setup_and_saved_block() {
    let mut s = IndexerStore::new();
    assert_eq!(s.saved_block(), 0);
    s.setup(profile(17_000_000));
    assert_eq!(s.saved_block(), 8928158);
    assert_eq!(s.block_number_at_deploy(), 17_000_000);
    assert_eq!(s.network(), SupportedNetwork::Mainnet);
    assert_eq!(s.address(), "0x6b175474e89094c44da98b954eedeac495271d0f");
    s.update_saved_block(9_000_000);
    assert_eq!(s.saved_block(), 9_000_000);
}

#[test]
fn sync_schedule() {
    let mut ix = Indexer::new();
    assert_eq!(ix.event_chunks(), DEFAULT_EVENT_CHUNKS);
    assert_eq!(ix.event_chunks(), 500);
    ix.setup(SupportedNetwork::Mainnet, Token::DAI, 8928158 + 1000);
    assert_eq!(ix.latest_block_number(), 8928158);
    assert!(!ix.sync_completed());
    assert_eq!(ix.next_sync_range(), (8928158, 8928658));
    ix.set_event_chunks(1000);
    assert_eq!(ix.next_sync_range(), (8928158, 8929158));
    let batches = ix.record_fetched_logs(Ok(vec![(8928200, vec![ev("a", "b", 7)])]));
    assert_eq!(batches, vec![vec![ev("a", "b", 7)]]);
    // Not marked synced until the batches are published.
    assert_eq!(ix.latest_block_number(), 8928158);
    ix.finish_sync_step(8929158);
    assert_eq!(ix.latest_block_number(), 8929158);
    assert!(ix.sync_completed());
    assert_eq!(ix.store.get_events_by_block_number(8928200), vec![ev("a", "b", 7)]);
}

#[test]
fn failed_fetch_records_error_and_advances() {
    let mut ix = Indexer::new();
    ix.setup(SupportedNetwork::Optimism, Token::DAI, 100);
    let batches = ix.record_fetched_logs(Err("rpc down".to_string()));
    assert!(batches.is_empty());
    assert_eq!(ix.latest_block_number(), 0);
    ix.finish_sync_step(500);
    assert_eq!(ix.store.errors_latest_n(1), vec!["rpc down".to_string()]);
    assert_eq!(ix.latest_block_number(), 500);
    assert_eq!(ix.store.events_count(), 0);
}

#[test]
fn ingest_keeps_last_of_repeated_block() {
    let mut ix = Indexer::new();
    let batches = ix.ingest_events(&vec![(1, vec![ev("a", "b", 1)]), (1, vec![ev("c", "d", 2)])]);
    assert_eq!(batches, vec![vec![ev("a", "b", 1), ev("c", "d", 2)]]);
    assert_eq!(ix.store.get_events_by_block_number(1), vec![ev("c", "d", 2)]);
}

#[test]
fn batches_of_800() {
    assert_eq!(PUBLISH_BATCH_SIZE, 800);
    let data: Vec<TransferEvent> = (0..1801u64).map(|i| ev("a", "b", i)).collect();
    let b = publish_batches(&data);
    assert_eq!(b.len(), 3);
    assert_eq!(b[0].len(), 800);
    assert_eq!(b[1].len(), 800);
    assert_eq!(b[2].len(), 201);
    assert_eq!(b[1][0], ev("a", "b", 800));
    assert_eq!(b.concat(), data);
    assert!(publish_batches(&Vec::new()).is_empty());
    assert_eq!(publish_batches(&data[..800].to_vec()).len(), 1);
}

#[test]
fn transform_drops_headers() {
    let r = HttpReply {
        status: BigNat::from_u64(200),
        headers: vec![HttpHeader { name: "date".to_string(), value: "now".to_string() }],
        body: vec![1, 2, 3],
    };
    let t = transform(r);
    assert_eq!(t.status, BigNat::from_u64(200));
    assert!(t.headers.is_empty());
    assert_eq!(t.body, vec![1, 2, 3]);
}
