//! The balance-driven lifecycle of an account: whether a record that an
//! invocation hands back is kept or purged.

use vstd::prelude::*;
use solana_program::rent::Rent;
use crate::account::{AccountRecord, AccountView};
use crate::address::Address;
use crate::error::Error;

verus! {

/// Longest data for which the minimum balance is computed. Up to this length
/// the intermediate products of the computation are exact.
pub const MAX_RENT_DATA_LEN: u64 = 0x100_0000_0000;

/// Bytes that an account occupies beside its data.
pub const ACCOUNT_STORAGE_OVERHEAD: u64 = 128;

/// Balance per occupied byte that exempts an account from being purged.
pub const EXEMPT_BALANCE_PER_BYTE: u64 = 6960;

/// The least balance that keeps an account with `data_len` bytes of data.
pub open spec fn spec_minimum_balance(data_len: nat) -> int {
    (ACCOUNT_STORAGE_OVERHEAD + data_len) * EXEMPT_BALANCE_PER_BYTE
}

/// Calls `Rent::default().minimum_balance` of solana_program. Its source
/// multiplies the data length plus 128 by the default rate of 3480 per byte
/// and year, and that product, as a float, by the default threshold of two
/// years. The contract claims the exact product for lengths up to
/// `MAX_RENT_DATA_LEN`, where neither the integer product overflows nor the
/// float rounds.
#[verifier::external_body]
fn rent_minimum_balance(data_len: usize) -> (r: u64)
    requires
        data_len <= MAX_RENT_DATA_LEN,
    ensures
        r == spec_minimum_balance(data_len as nat),
{
    Rent::default().minimum_balance(data_len)
}

/// The least balance that keeps an account with `data_len` bytes of data, or
/// `None` where the data is longer than `MAX_RENT_DATA_LEN`.
pub fn minimum_balance(data_len: usize) -> (r: Option<u64>)
    ensures
        r == if data_len <= MAX_RENT_DATA_LEN {
            Some(spec_minimum_balance(data_len as nat) as u64)
        } else {
            None
        },
        r matches Some(m) ==> m == spec_minimum_balance(data_len as nat),
{
    if data_len as u64 <= MAX_RENT_DATA_LEN {
        Some(rent_minimum_balance(data_len))
    } else {
        None
    }
}

/// What becomes of a record at commit.
#[derive(Clone, Copy, Debug, PartialEq, Eq, Structural)]
pub enum Disposition {
    /// The record is removed from the store.
    Purge,
    /// The record replaces what the store holds under its address.
    Store,
}

/// The lifecycle rule. A record without data and without balance is purged.
/// So is a record whose balance is below the minimum, unless it is the system
/// account. Every other record is stored.
pub open spec fn spec_disposition(account: AccountView) -> Disposition {
    if account.is_vacant() {
        Disposition::Purge
    } else if account.balance < spec_minimum_balance(account.data.len())
        && account.address != Address::system() {
        Disposition::Purge
    } else {
        Disposition::Store
    }
}

/// Decides what becomes of `account`, given the minimum balance for its data.
pub fn disposition(account: &AccountRecord, minimum: u64) -> (d: Disposition)
    ensures
        d == if account@.is_vacant() {
            Disposition::Purge
        } else if account.balance < minimum && account.address != Address::system() {
            Disposition::Purge
        } else {
            Disposition::Store
        },
        minimum == spec_minimum_balance(account@.data.len()) ==> d == spec_disposition(account@),
{
    if account.data.len() == 0 && account.balance == 0 {
        Disposition::Purge
    } else if account.balance < minimum && !account.address.is_system() {
        Disposition::Purge
    } else {
        Disposition::Store
    }
}

/// The store after one record has been committed to it.
pub open spec fn commit_one(
    store: Map<Address, AccountView>,
    account: AccountView,
) -> Map<Address, AccountView> {
    match spec_disposition(account) {
        Disposition::Purge => store.remove(account.address),
        Disposition::Store => store.insert(account.address, account.durable()),
    }
}

/// The store after the records have been committed to it, one after the
/// other, first to last.
pub open spec fn commit_all(
    store: Map<Address, AccountView>,
    accounts: Seq<AccountView>,
) -> Map<Address, AccountView>
    decreases accounts.len(),
{
    if accounts.len() == 0 {
        store
    } else {
        commit_one(commit_all(store, accounts.drop_last()), accounts.last())
    }
}

/// The data that a load finds under `address`: what the store holds, or
/// nothing.
pub open spec fn loaded_data(store: Map<Address, AccountView>, address: Address) -> Seq<u8> {
    if store.contains_key(address) {
        store[address].data
    } else {
        Seq::empty()
    }
}

/// Every record that is not writable still has the data that a load finds
/// in the store.
pub open spec fn unwritable_unchanged(
    store: Map<Address, AccountView>,
    accounts: Seq<AccountView>,
) -> bool {
    forall|i: int|
        0 <= i < accounts.len() && !(#[trigger] accounts[i]).is_writable ==> accounts[i].data
            == loaded_data(store, accounts[i].address)
}

/// The data of every record is short enough for its minimum balance to be
/// computed.
pub open spec fn within_rent_limit(accounts: Seq<AccountView>) -> bool {
    forall|i: int| 0 <= i < accounts.len() ==> (#[trigger] accounts[i]).data.len() <= MAX_RENT_DATA_LEN
}

/// What a commit of `accounts` makes of `store`: the store after every
/// record has been purged or stored in turn, or the reason why nothing is
/// persisted.
pub open spec fn commit_spec(
    store: Map<Address, AccountView>,
    accounts: Seq<AccountView>,
) -> Result<Map<Address, AccountView>, Error> {
    if !unwritable_unchanged(store, accounts) {
        Err(Error::NonMutableAccountChange)
    } else if !within_rent_limit(accounts) {
        Err(Error::AccountDataTooLarge)
    } else {
        Ok(commit_all(store, accounts))
    }
}

/// No address occurs twice among the records.
pub open spec fn distinct_accounts(accounts: Seq<AccountView>) -> bool {
    forall|i: int, j: int| 0 <= i < j < accounts.len() ==> accounts[i].address != accounts[j].address
}

/// What a commit leaves under the address of each record, where no address
/// occurs twice: nothing, if the lifecycle rule purges the record; its
/// durable form, if the rule stores it.
pub proof fn lemma_commit_all_at(store: Map<Address, AccountView>, accounts: Seq<AccountView>, i: int)
    requires
        distinct_accounts(accounts),
        0 <= i < accounts.len(),
    ensures
        spec_disposition(accounts[i]) == Disposition::Purge ==> !commit_all(
            store,
            accounts,
        ).contains_key(accounts[i].address),
        spec_disposition(accounts[i]) == Disposition::Store ==> commit_all(
            store,
            accounts,
        ).contains_key(accounts[i].address) && commit_all(store, accounts)[accounts[i].address]
            == accounts[i].durable(),
    decreases accounts.len(),
{
    let init = accounts.drop_last();
    let last = accounts.last();
    if i < accounts.len() - 1 {
        assert(distinct_accounts(init)) by {
            assert forall|p: int, q: int| 0 <= p < q < init.len() implies init[p].address
                != init[q].address by {
                assert(accounts[p].address != accounts[q].address);
            }
        }
        assert(init[i] == accounts[i]);
        lemma_commit_all_at(store, init, i);
        assert(accounts[i].address != accounts[accounts.len() - 1].address);
    }
}

/// A commit leaves what the store holds under an address that none of the
/// records has as it was.
pub proof fn lemma_commit_all_keeps_others(
    store: Map<Address, AccountView>,
    accounts: Seq<AccountView>,
    other: Address,
)
    requires
        forall|i: int| 0 <= i < accounts.len() ==> accounts[i].address != other,
    ensures
        commit_all(store, accounts).contains_key(other) == store.contains_key(other),
        store.contains_key(other) ==> commit_all(store, accounts)[other] == store[other],
    decreases accounts.len(),
{
    if accounts.len() > 0 {
        let init = accounts.drop_last();
        assert forall|i: int| 0 <= i < init.len() implies init[i].address != other by {
            assert(init[i] == accounts[i]);
        }
        lemma_commit_all_keeps_others(store, init, other);
        assert(accounts[accounts.len() - 1].address != other);
    }
}

/// The lifecycle of a balance: after a commit the store holds nothing under
/// the address of a record that has neither data nor balance, nor under that
/// of a record, other than the system account, whose balance is below the
/// minimum for its data.
pub proof fn lemma_balance_lifecycle(
    store: Map<Address, AccountView>,
    accounts: Seq<AccountView>,
    i: int,
)
    requires
        distinct_accounts(accounts),
        0 <= i < accounts.len(),
        accounts[i].is_vacant() || (accounts[i].balance < spec_minimum_balance(
            accounts[i].data.len(),
        ) && accounts[i].address != Address::system()),
    ensures
        !commit_all(store, accounts).contains_key(accounts[i].address),
{
    lemma_commit_all_at(store, accounts, i);
}

/// A record that is not vacant and holds at least the minimum for its data
/// is in the store after a commit, in its durable form. So is the system
/// account whenever it is not vacant.
pub proof fn lemma_funded_account_is_kept(
    store: Map<Address, AccountView>,
    accounts: Seq<AccountView>,
    i: int,
)
    requires
        distinct_accounts(accounts),
        0 <= i < accounts.len(),
        !accounts[i].is_vacant(),
        accounts[i].balance >= spec_minimum_balance(accounts[i].data.len()) || accounts[i].address
            == Address::system(),
    ensures
        commit_all(store, accounts).contains_key(accounts[i].address),
        commit_all(store, accounts)[accounts[i].address] == accounts[i].durable(),
{
    lemma_commit_all_at(store, accounts, i);
}

/// A commit is all or nothing: where a record that is not writable has other
/// data than the store holds for it, nothing is committed.
pub proof fn lemma_commit_refuses_unwritable_change(
    store: Map<Address, AccountView>,
    accounts: Seq<AccountView>,
    i: int,
)
    requires
        0 <= i < accounts.len(),
        !accounts[i].is_writable,
        accounts[i].data != loaded_data(store, accounts[i].address),
    ensures
        commit_spec(store, accounts) == Err::<Map<Address, AccountView>, Error>(
            Error::NonMutableAccountChange,
        ),
{
}

/// A commit of one writable record that is not vacant and holds at least the
/// minimum for its data succeeds, and the record is then found in the store
/// with its owner, its data and its balance. The data must be short enough
/// for the minimum to be computed.
pub proof fn lemma_funded_record_is_stored(store: Map<Address, AccountView>, record: AccountView)
    requires
        record.is_writable,
        !record.is_vacant(),
        record.balance >= spec_minimum_balance(record.data.len()),
        record.data.len() <= MAX_RENT_DATA_LEN,
    ensures
        commit_spec(store, seq![record]) matches Ok(committed) && {
            &&& committed.contains_key(record.address)
            &&& committed[record.address].owner == record.owner
            &&& committed[record.address].data == record.data
            &&& committed[record.address].balance == record.balance
        },
{
    let accounts = seq![record];
    assert(accounts.drop_last() =~= Seq::<AccountView>::empty());
    assert(accounts.last() == record);
    assert(commit_all(store, accounts.drop_last()) == store);
    assert(commit_all(store, accounts) == commit_one(store, record));
}

} // verus!