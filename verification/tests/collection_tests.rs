use ledger_emulator::account::AccountRecord;
use ledger_emulator::address::{derive_address, Address};
use ledger_emulator::collection::{
    address_bytes, address_from_bytes, append_bytes, resolve, AccountCollectionMeta,
    AccountReferenceCollection, Context, Proxy, META_HEADER_LEN, PROXY_CONTAINER_TYPE,
    PROXY_DATA_LEN,
};
use ledger_emulator::error::Error;
use ledger_emulator::store::AccountStore;

const TAG: u32 = 0x0000_0102;

fn address(n: u8) -> Address {
    Address { bytes: [n; 32] }
}

fn program() -> Address {
    address(100)
}

fn domain() -> Address {
    address(50)
}

/// A record that carries the schema tag `tag`.
fn member(n: u8, tag: u32) -> AccountRecord {
    let mut data = tag.to_le_bytes().to_vec();
    data.push(n);
    AccountRecord {
        address: address(n),
        owner: program(),
        data,
        balance: 10_000_000,
        is_signer: false,
        is_writable: true,
    }
}

fn collection(container_type: Option<u32>) -> AccountReferenceCollection {
    AccountReferenceCollection::try_create_from_meta(&domain(), &b"members".to_vec(), container_type)
        .unwrap()
}

/// Inserts `target` into `collection` through a context that holds the next
/// slot, and commits the slot and the target to `store`.
fn insert(collection: &mut AccountReferenceCollection, store: &mut AccountStore, target: &AccountRecord) {
    let (slot, bump) = collection.get_proxy_pda_at(&program(), collection.len() + 1).unwrap();
    let mut ctx = Context {
        program_id: program(),
        accounts: vec![
            AccountRecord::new_template_for_program(address(1), program()),
            AccountRecord::new_template_for_program(slot, program()),
        ],
    };
    collection.try_insert_reference(&mut ctx, bump, target).unwrap();
    assert!(ctx.accounts[0].data.is_empty());
    store.store(&ctx.accounts[1]);
    store.store(target);
}

#[test]
fn proxy_data_is_tag_and_target() {
    let mut account = AccountRecord::new_template_for_program(address(1), program());
    account.balance = 5;
    let proxy = Proxy::try_create(&mut account, &address(9));
    assert_eq!(proxy.reference, address(9));
    assert_eq!(Proxy::data_len(), 36);
    assert_eq!(account.data.len(), PROXY_DATA_LEN);
    assert_eq!(account.data[..4], PROXY_CONTAINER_TYPE.to_le_bytes());
    assert_eq!(account.data[4..], [9u8; 32]);
    assert_eq!(account.balance, 5);
    assert_eq!(account.address, address(1));
    assert_eq!(account.container_type(), Some(PROXY_CONTAINER_TYPE));
}

#[test]
fn proxy_reads_back() {
    let mut account = AccountRecord::new_template_for_program(address(1), program());
    Proxy::try_create(&mut account, &address(9));
    assert_eq!(Proxy::try_load(&account).unwrap().reference, address(9));
}

#[test]
fn proxy_is_not_read_from_other_data() {
    let mut account = AccountRecord::new_template_for_program(address(1), program());
    assert!(Proxy::try_load(&account).is_none());
    account.data = vec![0u8; 36];
    assert!(Proxy::try_load(&account).is_none());
    Proxy::try_create(&mut account, &address(9));
    account.data.push(0);
    assert!(Proxy::try_load(&account).is_none());
    account.data.truncate(35);
    assert!(Proxy::try_load(&account).is_none());
}

#[test]
fn byte_helpers() {
    let mut bytes = vec![1u8, 2];
    append_bytes(&mut bytes, &vec![3, 4]);
    assert_eq!(bytes, vec![1, 2, 3, 4]);
    assert_eq!(address_bytes(&address(6)), vec![6u8; 32]);
    let mut data = vec![0u8; 3];
    data.extend_from_slice(&[8u8; 32]);
    data.push(1);
    assert_eq!(address_from_bytes(&data, 3), address(8));
}

#[test]
fn meta_bytes_round_trip() {
    let mut meta = AccountCollectionMeta::try_create(&vec![1, 2, 3], Some(TAG)).unwrap();
    meta.set_len(0x0102_0304_0506_0708);
    let bytes = meta.to_bytes();
    assert_eq!(bytes.len(), META_HEADER_LEN + 3);
    assert_eq!(bytes, vec![8, 7, 6, 5, 4, 3, 2, 1, 1, 2, 1, 0, 0, 1, 2, 3]);
    let loaded = AccountCollectionMeta::try_load(&bytes).unwrap();
    assert_eq!(loaded.get_len(), 0x0102_0304_0506_0708);
    assert_eq!(loaded.get_seed(), vec![1, 2, 3]);
    assert_eq!(loaded.get_container_type(), Some(TAG));
}

#[test]
fn meta_without_tag_round_trip() {
    let meta = AccountCollectionMeta::try_create(&vec![], None).unwrap();
    let bytes = meta.to_bytes();
    assert_eq!(bytes, vec![0u8; 13]);
    let loaded = AccountCollectionMeta::try_load(&bytes).unwrap();
    assert_eq!(loaded.get_len(), 0);
    assert!(loaded.get_seed().is_empty());
    assert_eq!(loaded.get_container_type(), None);
    assert_eq!(AccountCollectionMeta::min_data_len(), 13);
}

#[test]
fn meta_is_not_read_from_other_bytes() {
    assert_eq!(AccountCollectionMeta::try_load(&vec![]).err(), Some(Error::NotFound));
    assert_eq!(AccountCollectionMeta::try_load(&vec![0u8; 12]).err(), Some(Error::NotFound));
    assert_eq!(AccountCollectionMeta::try_load(&vec![0u8; 46]).err(), Some(Error::NotFound));
    assert!(AccountCollectionMeta::try_load(&vec![0u8; 45]).is_ok());
    let mut bad_flag = vec![0u8; 13];
    bad_flag[8] = 2;
    assert_eq!(AccountCollectionMeta::try_load(&bad_flag).err(), Some(Error::NotFound));
}

#[test]
fn meta_refuses_a_long_seed() {
    assert_eq!(
        AccountCollectionMeta::try_create(&vec![0u8; 33], None).err(),
        Some(Error::MaxSeedLengthExceeded)
    );
    assert!(AccountCollectionMeta::try_create(&vec![0u8; 32], None).is_ok());
}

#[test]
fn create_starts_empty() {
    let c = collection(Some(TAG));
    assert_eq!(c.len(), 0);
    assert_eq!(c.domain(), domain());
    assert_eq!(AccountReferenceCollection::data_len_min(), 13);
}

#[test]
fn create_refuses_a_long_seed() {
    assert_eq!(
        AccountReferenceCollection::try_create_from_meta(&domain(), &vec![0u8; 33], None).err(),
        Some(Error::MaxSeedLengthExceeded)
    );
    let mut segment = vec![1u8, 2, 3];
    assert_eq!(
        AccountReferenceCollection::try_create_from_segment(&domain(), &mut segment, &vec![0u8; 33], None)
            .err(),
        Some(Error::MaxSeedLengthExceeded)
    );
    assert_eq!(segment, vec![1, 2, 3]);
}

#[test]
fn segment_round_trip() {
    let mut segment = vec![9u8; 3];
    let mut c = AccountReferenceCollection::try_create_from_segment(
        &domain(),
        &mut segment,
        &b"members".to_vec(),
        Some(TAG),
    )
    .unwrap();
    assert_eq!(segment.len(), 13 + 7);
    let mut store = AccountStore::new();
    insert(&mut c, &mut store, &member(7, TAG));
    c.save_to_segment(&mut segment);
    let loaded = AccountReferenceCollection::try_load_from_segment(&domain(), &segment).unwrap();
    assert_eq!(loaded.len(), 1);
    assert_eq!(loaded.domain(), domain());
    assert_eq!(loaded.get_proxy_seed_at(1), c.get_proxy_seed_at(1));
}

#[test]
fn load_needs_a_header() {
    assert_eq!(
        AccountReferenceCollection::try_load_from_segment(&domain(), &vec![]).err(),
        Some(Error::NotFound)
    );
}

#[test]
fn load_from_meta_takes_the_header() {
    let mut meta = AccountCollectionMeta::try_create(&vec![4, 5], None).unwrap();
    meta.set_len(3);
    let c = AccountReferenceCollection::try_load_from_meta(&domain(), meta).unwrap();
    assert_eq!(c.len(), 3);
    assert_eq!(c.get_proxy_seeds_at(0)[1], vec![4, 5]);
}

#[test]
fn proxy_seed_is_domain_seed_and_index() {
    let c = collection(None);
    let mut expected = vec![50u8; 32];
    expected.extend_from_slice(b"members");
    expected.extend_from_slice(&[2, 1, 0, 0, 0, 0, 0, 0]);
    assert_eq!(c.get_proxy_seed_at(0x0102), expected);
    assert_eq!(
        c.get_proxy_seeds_at(0x0102),
        vec![vec![50u8; 32], b"members".to_vec(), vec![2, 1, 0, 0, 0, 0, 0, 0]]
    );
}

#[test]
fn proxy_seed_changes_with_each_part() {
    let c = collection(None);
    let other_domain =
        AccountReferenceCollection::try_create_from_meta(&address(51), &b"members".to_vec(), None)
            .unwrap();
    let other_seed =
        AccountReferenceCollection::try_create_from_meta(&domain(), &b"member".to_vec(), None)
            .unwrap();
    assert_ne!(c.get_proxy_seed_at(1), c.get_proxy_seed_at(2));
    assert_ne!(c.get_proxy_seed_at(1), other_domain.get_proxy_seed_at(1));
    assert_ne!(c.get_proxy_seed_at(1), other_seed.get_proxy_seed_at(1));
    assert_ne!(c.get_proxy_pubkey_at(&program(), 1), c.get_proxy_pubkey_at(&program(), 2));
    assert_ne!(
        c.get_proxy_pubkey_at(&program(), 1),
        other_domain.get_proxy_pubkey_at(&program(), 1)
    );
    assert_ne!(
        c.get_proxy_pubkey_at(&program(), 1),
        other_seed.get_proxy_pubkey_at(&program(), 1)
    );
}

#[test]
fn slot_address_is_derived_from_the_seeds_and_the_bump() {
    let c = collection(None);
    let (slot, bump) = c.get_proxy_pda_at(&program(), 5).unwrap();
    assert_eq!(c.get_proxy_pubkey_at(&program(), 5), Ok(slot));
    let mut seeds = c.get_proxy_seeds_at(5);
    seeds.push(vec![bump]);
    assert_eq!(derive_address(&seeds, &program()), Ok(slot));
}

#[test]
fn insert_adds_one_entry() {
    let mut c = collection(Some(TAG));
    let mut store = AccountStore::new();
    insert(&mut c, &mut store, &member(7, TAG));
    assert_eq!(c.len(), 1);
    insert(&mut c, &mut store, &member(8, TAG));
    assert_eq!(c.len(), 2);
}

#[test]
fn insert_makes_the_slot_a_proxy_of_the_member() {
    let mut c = collection(None);
    let (slot, bump) = c.get_proxy_pda_at(&program(), 1).unwrap();
    let mut ctx = Context {
        program_id: program(),
        accounts: vec![AccountRecord::new_template_for_program(slot, program())],
    };
    assert_eq!(ctx.locate_index_account(&slot), Some(0));
    assert_eq!(ctx.locate_index_account(&address(3)), None);
    c.try_insert_reference(&mut ctx, bump, &member(7, TAG)).unwrap();
    assert_eq!(ctx.accounts[0].address, slot);
    assert_eq!(Proxy::try_load(&ctx.accounts[0]).unwrap().reference, address(7));
}

#[test]
fn insert_refuses_another_tag() {
    let mut c = collection(Some(TAG));
    let (slot, bump) = c.get_proxy_pda_at(&program(), 1).unwrap();
    let mut ctx = Context {
        program_id: program(),
        accounts: vec![AccountRecord::new_template_for_program(slot, program())],
    };
    assert_eq!(
        c.try_insert_reference(&mut ctx, bump, &member(7, TAG + 1)),
        Err(Error::ContainerTypeMismatch)
    );
    assert_eq!(c.len(), 0);
    assert!(ctx.accounts[0].data.is_empty());
    let untagged = AccountRecord::new_template_for_program(address(7), program());
    assert_eq!(c.try_insert_reference(&mut ctx, bump, &untagged), Err(Error::ContainerTypeMismatch));
    assert_eq!(c.len(), 0);
}

#[test]
fn insert_without_constraint_takes_any_tag() {
    let mut c = collection(None);
    let mut store = AccountStore::new();
    insert(&mut c, &mut store, &member(7, TAG));
    insert(&mut c, &mut store, &member(8, TAG + 1));
    insert(&mut c, &mut store, &AccountRecord::new_template_for_program(address(9), program()));
    assert_eq!(c.len(), 3);
}

#[test]
fn insert_needs_the_slot_in_the_context() {
    let mut c = collection(None);
    let (_, bump) = c.get_proxy_pda_at(&program(), 1).unwrap();
    let mut ctx = Context {
        program_id: program(),
        accounts: vec![AccountRecord::new_template_for_program(address(1), program())],
    };
    assert_eq!(
        c.try_insert_reference(&mut ctx, bump, &member(7, TAG)),
        Err(Error::CollectionSlotNotFound)
    );
    assert_eq!(c.len(), 0);
    assert!(ctx.accounts[0].data.is_empty());
}

#[test]
fn insert_needs_the_right_bump() {
    let mut c = collection(None);
    let (slot, bump) = c.get_proxy_pda_at(&program(), 1).unwrap();
    let mut ctx = Context {
        program_id: program(),
        accounts: vec![AccountRecord::new_template_for_program(slot, program())],
    };
    if bump < 255 {
        assert_eq!(
            c.try_insert_reference(&mut ctx, bump + 1, &member(7, TAG)),
            Err(Error::InvalidSeeds)
        );
    }
    assert_eq!(c.len(), 0);
}

#[test]
fn insert_into_a_full_collection_is_refused() {
    let mut meta = AccountCollectionMeta::try_create(&vec![], None).unwrap();
    meta.set_len(u64::MAX);
    let mut c = AccountReferenceCollection::try_load_from_meta(&domain(), meta).unwrap();
    let mut ctx = Context { program_id: program(), accounts: vec![] };
    assert_eq!(c.try_insert_reference(&mut ctx, 255, &member(7, TAG)), Err(Error::CollectionFull));
    assert_eq!(c.len(), u64::MAX);
}

#[test]
fn entry_is_loaded_through_its_proxy() {
    let mut c = collection(Some(TAG));
    let mut store = AccountStore::new();
    insert(&mut c, &mut store, &member(7, TAG));
    let loaded = c.load_container_at(&program(), 1, &store, TAG).unwrap().unwrap();
    assert_eq!(loaded.address, address(7));
    assert_eq!(loaded.data, member(7, TAG).data);
    assert_eq!(loaded.balance, 10_000_000);
}

#[test]
fn entry_without_proxy_is_none() {
    let mut c = collection(Some(TAG));
    let mut store = AccountStore::new();
    insert(&mut c, &mut store, &member(7, TAG));
    assert_eq!(c.load_container_at(&program(), 0, &store, TAG).map(|r| r.is_none()), Ok(true));
    assert_eq!(c.load_container_at(&program(), 2, &store, TAG).map(|r| r.is_none()), Ok(true));
}

#[test]
fn entry_with_missing_target_is_proxy_not_found() {
    let mut c = collection(Some(TAG));
    let mut store = AccountStore::new();
    insert(&mut c, &mut store, &member(7, TAG));
    store.purge(&address(7));
    assert_eq!(c.load_container_at(&program(), 1, &store, TAG).err(), Some(Error::ProxyNotFound));
}

#[test]
fn entry_with_another_schema_is_proxy_not_found() {
    let mut c = collection(None);
    let mut store = AccountStore::new();
    insert(&mut c, &mut store, &member(7, TAG));
    assert_eq!(
        c.load_container_at(&program(), 1, &store, TAG + 1).err(),
        Some(Error::ProxyNotFound)
    );
    assert!(c.load_container_at(&program(), 1, &store, TAG).unwrap().is_some());
}

#[test]
fn slot_that_holds_no_proxy_is_proxy_not_found() {
    let c = collection(None);
    let mut store = AccountStore::new();
    let slot = c.get_proxy_pubkey_at(&program(), 1).unwrap();
    let mut other = member(7, TAG);
    other.address = slot;
    store.store(&other);
    assert_eq!(resolve(&store, &slot, TAG).err(), Some(Error::ProxyNotFound));
    assert_eq!(c.load_container_at(&program(), 1, &store, TAG).err(), Some(Error::ProxyNotFound));
}

#[test]
fn range_is_loaded_in_index_order() {
    let mut c = collection(Some(TAG));
    let mut store = AccountStore::new();
    for n in [7u8, 8, 9, 10] {
        insert(&mut c, &mut store, &member(n, TAG));
    }
    store.purge(&address(9));
    let loaded = c.load_container_range(&program(), 0, 6, &store, TAG);
    assert_eq!(loaded.len(), 6);
    assert!(loaded[0].as_ref().unwrap().is_none());
    assert_eq!(loaded[1].as_ref().unwrap().as_ref().unwrap().address, address(7));
    assert_eq!(loaded[2].as_ref().unwrap().as_ref().unwrap().address, address(8));
    assert_eq!(loaded[3].as_ref().err(), Some(&Error::ProxyNotFound));
    assert_eq!(loaded[4].as_ref().unwrap().as_ref().unwrap().address, address(10));
    assert!(loaded[5].as_ref().unwrap().is_none());
}

#[test]
fn range_has_one_result_for_each_index() {
    let mut c = collection(Some(TAG));
    let mut store = AccountStore::new();
    for n in [7u8, 8, 9] {
        insert(&mut c, &mut store, &member(n, TAG));
    }
    assert_eq!(c.load_container_range(&program(), 2, 4, &store, TAG).len(), 2);
    assert_eq!(
        c.load_container_range(&program(), 2, 4, &store, TAG)[0].as_ref().unwrap().as_ref().unwrap().address,
        address(8)
    );
    assert!(c.load_container_range(&program(), 3, 3, &store, TAG).is_empty());
    assert!(c.load_container_range(&program(), 4, 2, &store, TAG).is_empty());
}
