use indexer::bignat::BigNat;
use indexer::hhi::{hhi, hhi_of_top_balances, BASE};
use indexer::network::SupportedNetwork;
use indexer::principal::principal_from_text;
use indexer::relayer::{ethereum_address_text, RelayerStore, TASK_INTERVAL_SECS, TOP_N_FOR_HHI};
use indexer::snapshot::SnapshotStore;

fn n(v: u64) -> BigNat {
    BigNat::from_u64(v)
}

#[test]
fn squared_share() {
    assert_eq!(BASE, 1_000_000_000_000);
    // 1/4 of the supply: share 0.25 * 10^12, squared.
    assert_eq!(hhi(&n(25), &n(100)), BigNat::from_u128(62_500_000_000_000_000_000_000));
    // Shares are rounded down before squaring: 1/3 -> 333333333333.
    assert_eq!(hhi(&n(1), &n(3)), BigNat::from_u128(333_333_333_333u128 * 333_333_333_333u128));
}

#[test]
fn index_of_holders() {
    let one = vec![("a".to_string(), n(100))];
    assert_eq!(hhi_of_top_balances(&one, &n(100)), n(10000));
    let two = vec![("a".to_string(), n(50)), ("b".to_string(), n(50))];
    assert_eq!(hhi_of_top_balances(&two, &n(100)), n(5000));
    let ten: Vec<(String, BigNat)> = (0..10).map(|i| (i.to_string(), n(10))).collect();
    assert_eq!(hhi_of_top_balances(&ten, &n(100)), n(1000));
    assert_eq!(hhi_of_top_balances(&vec![], &n(100)), n(0));
    // Holders outside the top count against the supply: one holder of 60 out of 100.
    assert_eq!(hhi_of_top_balances(&vec![("a".to_string(), n(60))], &n(100)), n(3600));
}

#[test]
fn snapshots_newest_first() {
    let mut s = SnapshotStore::new();
    s.record(30, n(3));
    s.record(10, n(1));
    s.record(20, n(2));
    assert_eq!(s.data_points(), 3);
    assert_eq!(s.hhis(2), vec![(30, n(3)), (20, n(2))]);
    assert_eq!(s.hhis(10), vec![(30, n(3)), (20, n(2)), (10, n(1))]);
    assert!(s.hhis(0).is_empty());
    s.record(20, n(7));
    assert_eq!(s.data_points(), 3);
    assert_eq!(s.hhis(2), vec![(30, n(3)), (20, n(7))]);
}

#[test]
fn snapshot_setup() {
    let mut s = SnapshotStore::new();
    assert_eq!(s.hhi_canister(), vec![4u8]);
    assert!(!s.try_setup("not a principal".to_string(), "m".to_string()));
    assert_eq!(s.mapper(), "");
    assert!(s.try_setup("aaaaa-aa".to_string(), "mapper-id".to_string()));
    assert_eq!(s.hhi_canister(), Vec::<u8>::new());
    assert_eq!(s.mapper(), "mapper-id");
}

#[test]
fn relayer_settings() {
    let mut r = RelayerStore::new();
    assert_eq!(r.hhi_canister(), vec![4u8]);
    assert_eq!(r.mapper(), "");
    assert_eq!(r.oracle_address(), "");
    assert_eq!(r.get_network(), SupportedNetwork::Mainnet);
    r.set_mapper("m1".to_string());
    r.set_oracle_address("0xabc".to_string());
    r.set_network(SupportedNetwork::Optimism);
    assert_eq!(r.mapper(), "m1");
    assert_eq!(r.oracle_address(), "0xabc");
    assert_eq!(r.get_network(), SupportedNetwork::Optimism);
    assert!(!r.try_set_hhi_canister("xyz".to_string()));
    assert_eq!(r.hhi_canister(), vec![4u8]);
    assert!(r.try_set_hhi_canister("2vxsx-fae".to_string()));
    assert_eq!(r.hhi_canister(), vec![4u8]);
    r.setup("aaaaa-aa".to_string(), "m2".to_string(), SupportedNetwork::PolygonMumbai, "0xdef".to_string());
    assert_eq!(r.hhi_canister(), Vec::<u8>::new());
    assert_eq!(r.mapper(), "m2");
    assert_eq!(r.get_network(), SupportedNetwork::PolygonMumbai);
    assert_eq!(r.oracle_address(), "0xdef");
    assert_eq!(TASK_INTERVAL_SECS, 3600);
    assert_eq!(TOP_N_FOR_HHI, 100);
}

#[test]
fn ethereum_address_text_formats() {
    assert_eq!(ethereum_address_text(Ok(vec![0x0a, 0xff, 0x00])), "0x0aff00");
    assert_eq!(ethereum_address_text(Err("no key".to_string())), "no key");
    assert_eq!(ethereum_address_text(Ok(vec![])), "0x");
}

#[test]
fn relayer_try_setup_is_all_or_nothing() {
    let mut r = RelayerStore::new();
    assert!(!r.try_setup("bad".to_string(), "m".to_string(), SupportedNetwork::Optimism, "0x1".to_string()));
    assert_eq!(r.mapper(), "");
    assert_eq!(r.get_network(), SupportedNetwork::Mainnet);
    assert!(r.try_setup("aaaaa-aa".to_string(), "m".to_string(), SupportedNetwork::Optimism, "0x1".to_string()));
    assert_eq!(r.mapper(), "m");
    assert_eq!(r.oracle_address(), "0x1");
    assert_eq!(r.get_network(), SupportedNetwork::Optimism);
}

#[test]
fn index_of_no_holders_is_zero_even_without_supply() {
    assert_eq!(hhi_of_top_balances(&vec![], &n(0)), n(0));
}

#[test]
fn principal_text_reads_as_bytes() {
    // The management canister has no bytes; the anonymous principal is the single byte 4.
    assert_eq!(principal_from_text("aaaaa-aa"), Some(vec![]));
    assert_eq!(principal_from_text("2vxsx-fae"), Some(vec![4u8]));
    assert_eq!(principal_from_text("not a principal"), None);
    assert_eq!(principal_from_text("2vxsx-fa"), None);
}
