use indexer::address::{check_null_address, is_null_address, NULL_ADDRESS};
use indexer::bignat::BigNat;
use indexer::mapping_store::MappingStore;
use indexer::types::TransferEvent;

const A: &str = "0x1111111111111111111111111111111111111111";
const B: &str = "0x2222222222222222222222222222222222222222";
const C: &str = "0x3333333333333333333333333333333333333333";
const D: &str = "0x4444444444444444444444444444444444444444";

fn t(from: &str, to: &str, v: u64) -> TransferEvent {
    TransferEvent { from: from.to_string(), to: to.to_string(), value: BigNat::from_u64(v) }
}

fn n(v: u64) -> BigNat {
    BigNat::from_u64(v)
}

#[test]
fn null_address_is_recognised() {
    assert!(is_null_address(&NULL_ADDRESS.to_string()));
    assert!(is_null_address(&"0000000000000000000000000000000000000000".to_string()));
    assert!(!is_null_address(&A.to_string()));
    assert_eq!(check_null_address(&"0x12".to_string()), None);
    assert_eq!(check_null_address(&NULL_ADDRESS.to_string()), Some(true));
    assert_eq!(check_null_address(&"0x 00000000000000000000 00000000000000000000\n".to_string()), Some(true));
    assert_eq!(check_null_address(&"0xABCDEFabcdef0000000000000000000000000000".to_string()), Some(false));
    assert_eq!(check_null_address(&"0X0000000000000000000000000000000000000000".to_string()), None);
    assert_eq!(check_null_address(&"0x00000000000000000000000000000000000000000".to_string()), None);
}

#[test]
fn mint_transfer_burn() {
    let mut m = MappingStore::new();
    assert!(m.try_update(t(NULL_ADDRESS, A, 100)));
    assert_eq!(m.total_supply(), n(100));
    assert_eq!(m.get_account_balance(A.to_string()), n(100));
    assert!(m.try_update(t(A, B, 30)));
    assert_eq!(m.get_account_balance(A.to_string()), n(70));
    assert_eq!(m.get_account_balance(B.to_string()), n(30));
    assert!(m.try_update(t(B, NULL_ADDRESS, 10)));
    assert_eq!(m.get_account_balance(B.to_string()), n(20));
    assert_eq!(m.total_supply(), n(90));
    assert_eq!(m.get_account_balance(C.to_string()), n(0));
}

#[test]
fn overdraft_is_not_debited_but_still_credited() {
    let mut m = MappingStore::new();
    m.try_update(t(NULL_ADDRESS, A, 10));
    m.try_update(t(A, B, 50));
    assert_eq!(m.get_account_balance(A.to_string()), n(10));
    assert_eq!(m.get_account_balance(B.to_string()), n(50));
}

#[test]
fn burn_beyond_supply_keeps_supply() {
    let mut m = MappingStore::new();
    m.try_update(t(NULL_ADDRESS, A, 10));
    m.try_update(t(A, NULL_ADDRESS, 5));
    m.try_update(t(B, NULL_ADDRESS, 100));
    assert_eq!(m.total_supply(), n(5));
}

#[test]
fn invalid_address_leaves_ledger() {
    let mut m = MappingStore::new();
    assert!(!m.try_update(t("not an address", A, 10)));
    assert_eq!(m.get_account_balance(A.to_string()), n(0));
    assert_eq!(m.total_supply(), n(0));
}

#[test]
fn top_holders_take_whole_groups() {
    let mut m = MappingStore::new();
    m.try_update(t(NULL_ADDRESS, A, 100));
    m.try_update(t(NULL_ADDRESS, B, 50));
    m.try_update(t(NULL_ADDRESS, C, 50));
    m.try_update(t(NULL_ADDRESS, D, 10));
    assert_eq!(m.balances_top_n(0), vec![]);
    assert_eq!(m.balances_top_n(1), vec![(A.to_string(), n(100))]);
    assert_eq!(m.balances_top_n(2), vec![(A.to_string(), n(100))]);
    assert_eq!(
        m.balances_top_n(3),
        vec![(A.to_string(), n(100)), (B.to_string(), n(50)), (C.to_string(), n(50))]
    );
    assert_eq!(m.balances_top_n(100).len(), 4);
    assert_eq!(m.balances_top_n(100)[3], (D.to_string(), n(10)));
}

#[test]
fn regrouping_after_transfer() {
    let mut m = MappingStore::new();
    m.try_update(t(NULL_ADDRESS, A, 100));
    m.try_update(t(NULL_ADDRESS, B, 50));
    m.try_update(t(A, C, 100));
    // A now holds 0 and is listed under 0; C holds 100.
    assert_eq!(
        m.balances_top_n(10),
        vec![(C.to_string(), n(100)), (B.to_string(), n(50)), (A.to_string(), n(0))]
    );
}

#[test]
fn self_transfer_keeps_balance_and_moves_to_end_of_group() {
    let mut m = MappingStore::new();
    m.try_update(t(NULL_ADDRESS, A, 5));
    m.try_update(t(NULL_ADDRESS, B, 5));
    m.try_update(t(A, A, 2));
    assert_eq!(m.get_account_balance(A.to_string()), n(5));
    assert_eq!(m.balances_top_n(10), vec![(B.to_string(), n(5)), (A.to_string(), n(5))]);
}

#[test]
fn zero_credit_to_new_account_is_not_listed() {
    let mut m = MappingStore::new();
    m.try_update(t(NULL_ADDRESS, A, 0));
    assert_eq!(m.get_account_balance(A.to_string()), n(0));
    assert!(m.balances_top_n(10).is_empty());
}

#[test]
fn large_amounts_do_not_overflow() {
    let mut m = MappingStore::new();
    let big = BigNat::from_u128(u128::MAX);
    m.try_update(TransferEvent { from: NULL_ADDRESS.to_string(), to: A.to_string(), value: big.clone() });
    m.try_update(TransferEvent { from: NULL_ADDRESS.to_string(), to: A.to_string(), value: big.clone() });
    let b = m.get_account_balance(A.to_string());
    assert_eq!(b.digits, vec![u32::MAX - 1, u32::MAX, u32::MAX, u32::MAX, 1]);
    assert!(!m.known_block(1));
}

#[test]
fn top_lists_extend_and_stay_ordered() {
    let mut m = MappingStore::new();
    m.try_update(t(NULL_ADDRESS, A, 7));
    m.try_update(t(NULL_ADDRESS, B, 9));
    m.try_update(t(NULL_ADDRESS, C, 7));
    m.try_update(t(NULL_ADDRESS, D, 1));
    let all = m.balances_top_n(u64::MAX);
    assert_eq!(all.len(), 4);
    for w in all.windows(2) {
        assert!(w[0].1.digits >= w[1].1.digits || w[1].1.digits.is_empty());
    }
    for k in 0..5u64 {
        let part = m.balances_top_n(k);
        assert_eq!(&all[..part.len()], &part[..]);
    }
    assert_eq!(m.balances_top_n(2), vec![(B.to_string(), n(9))]);
}
