use ledger_emulator::account::AccountRecord;
use ledger_emulator::address::Address;
use ledger_emulator::store::AccountStore;

fn address(n: u8) -> Address {
    Address { bytes: [n; 32] }
}

fn record(n: u8, data: Vec<u8>, balance: u64) -> AccountRecord {
    AccountRecord {
        address: address(n),
        owner: address(200),
        data,
        balance,
        is_signer: true,
        is_writable: true,
    }
}

#[test]
fn new_store_is_empty() {
    let store = AccountStore::new();
    assert_eq!(store.len(), 0);
    assert!(store.lookup(&address(1)).is_none());
    assert!(!store.contains(&address(1)));
}

#[test]
fn stored_record_is_found_again() {
    let mut store = AccountStore::new();
    store.store(&record(1, vec![1, 2, 3, 4, 5], 77));
    let found = store.lookup(&address(1)).unwrap();
    assert_eq!(found.address, address(1));
    assert_eq!(found.owner, address(200));
    assert_eq!(found.data, vec![1, 2, 3, 4, 5]);
    assert_eq!(found.balance, 77);
    assert_eq!(store.len(), 1);
}

#[test]
fn stored_record_loses_its_flags() {
    let mut store = AccountStore::new();
    store.store(&record(1, vec![], 1));
    let found = store.lookup(&address(1)).unwrap();
    assert!(!found.is_signer);
    assert!(!found.is_writable);
}

#[test]
fn store_replaces_what_was_held() {
    let mut store = AccountStore::new();
    store.store(&record(1, vec![1], 10));
    store.store(&record(2, vec![2], 20));
    store.store(&record(1, vec![9, 9], 30));
    assert_eq!(store.len(), 2);
    let first = store.lookup(&address(1)).unwrap();
    assert_eq!(first.data, vec![9, 9]);
    assert_eq!(first.balance, 30);
    let second = store.lookup(&address(2)).unwrap();
    assert_eq!(second.data, vec![2]);
    assert_eq!(second.balance, 20);
}

#[test]
fn purge_is_idempotent() {
    let mut store = AccountStore::new();
    store.store(&record(1, vec![1], 10));
    store.store(&record(2, vec![2], 20));
    store.purge(&address(1));
    assert!(store.lookup(&address(1)).is_none());
    assert_eq!(store.len(), 1);
    store.purge(&address(1));
    assert!(store.lookup(&address(1)).is_none());
    assert_eq!(store.len(), 1);
    assert_eq!(store.lookup(&address(2)).unwrap().balance, 20);
}

#[test]
fn purge_of_an_absent_address_changes_nothing() {
    let mut store = AccountStore::new();
    store.purge(&address(5));
    assert_eq!(store.len(), 0);
    store.store(&record(1, vec![1], 10));
    store.purge(&address(5));
    assert_eq!(store.len(), 1);
    assert!(store.contains(&address(1)));
}

#[test]
fn purge_in_the_middle_keeps_the_rest() {
    let mut store = AccountStore::new();
    for n in 1..=5u8 {
        store.store(&record(n, vec![n], n as u64));
    }
    store.purge(&address(3));
    assert_eq!(store.len(), 4);
    for n in [1u8, 2, 4, 5] {
        let found = store.lookup(&address(n)).unwrap();
        assert_eq!(found.data, vec![n]);
        assert_eq!(found.balance, n as u64);
    }
    assert!(!store.contains(&address(3)));
}
