use ledger_emulator::account::{copy_bytes, AccountRecord};
use ledger_emulator::address::Address;
use ledger_emulator::error::{decimal, Error};

fn address(n: u8) -> Address {
    Address { bytes: [n; 32] }
}

#[test]
fn template_is_empty_and_owned_by_the_program() {
    let r = AccountRecord::new_template_for_program(address(1), address(2));
    assert_eq!(r.address, address(1));
    assert_eq!(r.owner, address(2));
    assert!(r.data.is_empty());
    assert_eq!(r.balance, 0);
    assert!(!r.is_signer);
    assert!(!r.is_writable);
    assert_eq!(r.data_len(), 0);
}

#[test]
fn static_record_has_the_given_owner() {
    let r = AccountRecord::new_static(address(3), address(4));
    assert_eq!(r.address, address(3));
    assert_eq!(r.owner, address(4));
    assert!(r.data.is_empty());
    assert_eq!(r.balance, 0);
}

#[test]
fn container_type_is_the_first_four_bytes() {
    let mut r = AccountRecord::new_static(address(1), address(2));
    assert_eq!(r.container_type(), None);
    r.data = vec![1, 2, 3];
    assert_eq!(r.container_type(), None);
    r.data = vec![0x78, 0x56, 0x34, 0x12];
    assert_eq!(r.container_type(), Some(0x1234_5678));
    r.data = vec![1, 0, 0, 0, 9, 9, 9];
    assert_eq!(r.container_type(), Some(1));
}

#[test]
fn clone_for_program_keeps_the_flags() {
    let mut r = AccountRecord::new_static(address(1), address(2));
    r.data = vec![5, 6];
    r.balance = 9;
    r.is_signer = true;
    r.is_writable = true;
    let c = r.clone_for_program();
    assert_eq!(c.address, r.address);
    assert_eq!(c.owner, r.owner);
    assert_eq!(c.data, vec![5, 6]);
    assert_eq!(c.balance, 9);
    assert!(c.is_signer);
    assert!(c.is_writable);
}

#[test]
fn clone_for_storage_clears_the_flags() {
    let mut r = AccountRecord::new_static(address(1), address(2));
    r.data = vec![5, 6];
    r.balance = 9;
    r.is_signer = true;
    r.is_writable = true;
    let c = r.clone_for_storage();
    assert_eq!(c.data, vec![5, 6]);
    assert_eq!(c.balance, 9);
    assert_eq!(c.owner, address(2));
    assert!(!c.is_signer);
    assert!(!c.is_writable);
}

#[test]
fn copy_bytes_copies() {
    assert_eq!(copy_bytes(&vec![]), Vec::<u8>::new());
    assert_eq!(copy_bytes(&vec![1, 2, 3]), vec![1, 2, 3]);
}

#[test]
fn every_error_has_its_message() {
    assert_eq!(Error::NotFound.message(), "NotFound");
    assert_eq!(Error::DuplicateAccount.message(), "DuplicateAccount");
    assert_eq!(Error::ContainerTypeMismatch.message(), "ContainerTypeMismatch");
    assert_eq!(Error::CollectionSlotNotFound.message(), "CollectionSlotNotFound");
    assert_eq!(Error::ProxyNotFound.message(), "ProxyNotFound");
    assert_eq!(Error::NonMutableAccountChange.message(), "NonMutableAccountChange");
    assert_eq!(Error::InsufficientBalance.message(), "InsufficientBalance");
    assert_eq!(Error::EntrypointNotFound.message(), "EntrypointNotFound");
    assert_eq!(Error::AddressSpaceExhausted.message(), "AddressSpaceExhausted");
    assert_eq!(Error::MaxSeedLengthExceeded.message(), "MaxSeedLengthExceeded");
    assert_eq!(Error::InvalidSeeds.message(), "InvalidSeeds");
    assert_eq!(Error::IllegalOwner.message(), "IllegalOwner");
    assert_eq!(Error::AccountDataTooLarge.message(), "AccountDataTooLarge");
    assert_eq!(Error::CollectionFull.message(), "CollectionFull");
    assert_eq!(Error::ProgramFailed(3).message(), "ProgramFailed(3)");
}

#[test]
fn a_failed_program_is_described_with_its_code() {
    assert_eq!(Error::ProgramFailed(0).message(), "ProgramFailed(0)");
    assert_eq!(Error::ProgramFailed(42).message(), "ProgramFailed(42)");
    assert_eq!(Error::ProgramFailed(1000).message(), "ProgramFailed(1000)");
    assert_eq!(
        Error::ProgramFailed(u64::MAX).message(),
        "ProgramFailed(18446744073709551615)"
    );
    assert_ne!(Error::ProgramFailed(1).message(), Error::ProgramFailed(10).message());
}

#[test]
fn decimal_renders_digits() {
    assert_eq!(decimal(0), "0");
    assert_eq!(decimal(9), "9");
    assert_eq!(decimal(10), "10");
    assert_eq!(decimal(1234567890), "1234567890");
    assert_eq!(decimal(u64::MAX), u64::MAX.to_string());
}
